use vstd::prelude::*;

verus! {

/// Number of glyphs in the density ramp used for character-art canvases.
pub const DENSITY_LEN: usize = 12;

/// Number of glyphs in the block ramp used for single-character icons.
pub const ICON_RAMP_LEN: usize = 5;

/// The density ramp: glyphs ordered by increasing perceptual ink weight,
/// from a blank at index 0 to the heaviest glyph at the last index.
pub open spec fn spec_density_ramp() -> Seq<char> {
    seq![' ', '.', ',', ':', ';', '+', '*', '?', '%', 'S', '#', '@']
}

/// The block ramp used for single-character icons, ordered by increasing
/// ink weight from blank to the full block.
pub open spec fn spec_icon_ramp() -> Seq<char> {
    seq![' ', '\u{2591}', '\u{2592}', '\u{2593}', '\u{2588}']
}

/// Glyph at position `i` of the density ramp.
pub fn density_glyph(i: usize) -> (c: char)
    requires
        i < DENSITY_LEN,
    ensures
        c == spec_density_ramp()[i as int],
{
    match i {
        0 => ' ',
        1 => '.',
        2 => ',',
        3 => ':',
        4 => ';',
        5 => '+',
        6 => '*',
        7 => '?',
        8 => '%',
        9 => 'S',
        10 => '#',
        _ => '@',
    }
}

/// Glyph at position `i` of the icon block ramp.
pub fn icon_ramp_glyph(i: usize) -> (c: char)
    requires
        i < ICON_RAMP_LEN,
    ensures
        c == spec_icon_ramp()[i as int],
{
    match i {
        0 => ' ',
        1 => '\u{2591}',
        2 => '\u{2592}',
        3 => '\u{2593}',
        _ => '\u{2588}',
    }
}

/// Position of the glyph standing for an ink level in `0..=255`, in a ramp
/// of `n` glyphs: `round(ink * (n - 1) / 255)`, written over integers.
pub open spec fn spec_ramp_index(ink: int, n: int) -> int {
    (2 * ink * (n - 1) + 255) / 510
}

/// The ramp position of every ink level lies inside the ramp.
pub proof fn lemma_ramp_index_in_range(ink: int, n: int)
    requires
        0 <= ink <= 255,
        1 <= n,
    ensures
        0 <= spec_ramp_index(ink, n) < n,
{
    assert(2 * ink * (n - 1) + 255 <= 510 * (n - 1) + 255) by (nonlinear_arith)
        requires
            0 <= ink <= 255,
            1 <= n,
    ;
    assert(0 <= (2 * ink * (n - 1) + 255) / 510 <= n - 1) by (nonlinear_arith)
        requires
            0 <= 2 * ink * (n - 1) + 255 <= 510 * (n - 1) + 255,
            1 <= n,
    ;
}

/// A deeper ink level is never drawn with a lighter glyph: the ramp
/// position grows monotonically with the ink level.
pub proof fn lemma_ramp_index_monotone(a: int, b: int, n: int)
    requires
        0 <= a <= b <= 255,
        1 <= n,
    ensures
        spec_ramp_index(a, n) <= spec_ramp_index(b, n),
{
    assert(2 * a * (n - 1) + 255 <= 2 * b * (n - 1) + 255) by (nonlinear_arith)
        requires
            0 <= a <= b,
            1 <= n,
    ;
    assert((2 * a * (n - 1) + 255) / 510 <= (2 * b * (n - 1) + 255) / 510) by (nonlinear_arith)
        requires
            0 <= 2 * a * (n - 1) + 255 <= 2 * b * (n - 1) + 255,
    ;
}

/// Ramp position for an ink level, as executable code.
pub fn ramp_index(ink: u8, n: usize) -> (i: usize)
    requires
        1 <= n <= 64,
    ensures
        i == spec_ramp_index(ink as int, n as int),
        i < n,
{
    proof {
        lemma_ramp_index_in_range(ink as int, n as int);
    }
    (2 * (ink as usize) * (n - 1) + 255) / 510
}

} // verus!
