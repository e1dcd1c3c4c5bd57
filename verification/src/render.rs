use vstd::prelude::*;

use crate::fit::{fit_box, fit_icon, spec_fit_box, spec_fit_icon};
use crate::glyphs::{
    density_glyph, icon_ramp_glyph, ramp_index, spec_density_ramp, spec_icon_ramp,
    spec_ramp_index, DENSITY_LEN, ICON_RAMP_LEN,
};
use crate::grid::{
    block_average, cells_ssd, cells_sum, embed, lemma_grid_index, quantize, seq_sum, spec_downsample,
    spec_embed, spec_quantize, spec_ssd, InkGrid,
};
use crate::raster::{raster_of, render_rgba, svg_intrinsic_size, svg_size_of};
use crate::sniff::{sniff_icon, spec_sniff_icon};
use crate::text::first_char_or;
use vstd::string::StringSliceAdditionalSpecFns;

verus! {

/// Why a render failed: the path could not be read at all, the document
/// did not parse (or had degenerate geometry), or only an external tool
/// was tried and it was absent or failed.
#[derive(Clone, Copy, Debug, PartialEq, Eq, Structural)]
pub enum RenderError {
    IoError,
    ParseError,
    ExternalToolError,
}

/// Edge of the supersampled square canvas a document is rendered to in
/// icon mode.
pub const ICON_SIZE: u32 = 64;

/// Free inner edge of the icon canvas: one sample of padding per side.
pub const ICON_INNER: u32 = 62;

/// Edge of the cell grid an icon canvas is downsampled to.
pub const ICON_GRID: usize = 8;

/// The glyph standing for one canvas cell: its ink level mapped into the
/// density ramp.
pub open spec fn spec_cell_glyph(v: u8) -> char {
    spec_density_ramp()[spec_ramp_index(v as int, DENSITY_LEN as int)]
}

/// Row `y` of a canvas: one density glyph per cell of that grid row.
pub open spec fn spec_row(cells: Seq<u8>, w: int, y: int) -> Seq<char> {
    Seq::new(w as nat, |x: int| spec_cell_glyph(cells[y * w + x]))
}

/// The first `k` rows of the canvas, joined by single newlines, with no
/// trailing newline.
pub open spec fn spec_canvas_upto(cells: Seq<u8>, w: int, k: int) -> Seq<char>
    decreases k,
{
    if k <= 0 {
        Seq::empty()
    } else if k == 1 {
        spec_row(cells, w, 0)
    } else {
        spec_canvas_upto(cells, w, k - 1).push('\n') + spec_row(cells, w, k - 1)
    }
}

/// The whole canvas of an ink grid as one character sequence.
pub open spec fn spec_canvas(cells: Seq<u8>, w: int, h: int) -> Seq<char> {
    spec_canvas_upto(cells, w, h)
}

/// No density glyph is a newline, so rows never bleed into each other.
pub proof fn lemma_glyph_not_newline(v: u8)
    ensures
        spec_cell_glyph(v) != '\n',
{
    crate::glyphs::lemma_ramp_index_in_range(v as int, DENSITY_LEN as int);
    let i = spec_ramp_index(v as int, DENSITY_LEN as int);
    assert(spec_density_ramp()[i] != '\n');
}

/// The canvas of a `w` by `h` grid is rectangular: its length is exactly
/// `h` rows of `w` glyphs plus the `h - 1` newlines between them, and a
/// newline stands exactly at the positions that close a row.
pub proof fn lemma_canvas_shape(cells: Seq<u8>, w: int, h: int)
    requires
        1 <= w,
        1 <= h,
    ensures
        spec_canvas(cells, w, h).len() == h * (w + 1) - 1,
        forall|i: int|
            0 <= i < h * (w + 1) - 1 ==> ((#[trigger] spec_canvas(cells, w, h)[i]) == '\n' <==> (i
                + 1) % (w + 1) == 0),
    decreases h,
{
    if h == 1 {
        assert forall|i: int| 0 <= i < 1 * (w + 1) - 1 implies ((spec_canvas(cells, w, 1)[i])
            == '\n' <==> (i + 1) % (w + 1) == 0) by {
            lemma_glyph_not_newline(cells[0 * w + i]);
            vstd::arithmetic::div_mod::lemma_small_mod((i + 1) as nat, (w + 1) as nat);
        }
    } else {
        lemma_canvas_shape(cells, w, h - 1);
        let prev = spec_canvas_upto(cells, w, h - 1);
        let cur = spec_canvas(cells, w, h);
        assert(cur.len() == h * (w + 1) - 1) by (nonlinear_arith)
            requires
                prev.len() == (h - 1) * (w + 1) - 1,
                cur.len() == prev.len() + 1 + w,
        ;
        assert forall|i: int| 0 <= i < h * (w + 1) - 1 implies ((cur[i]) == '\n' <==> (i + 1) % (w
            + 1) == 0) by {
            if i < prev.len() {
                assert(cur[i] == prev[i]);
            } else if i == prev.len() {
                assert(cur[i] == '\n');
                assert(i + 1 == (w + 1) * (h - 1)) by (nonlinear_arith)
                    requires
                        i == (h - 1) * (w + 1) - 1,
                ;
                vstd::arithmetic::div_mod::lemma_mod_multiples_vanish(h - 1, 0, w + 1);
            } else {
                let j = i - prev.len() - 1;
                assert(cur[i] == spec_row(cells, w, h - 1)[j]);
                lemma_glyph_not_newline(cells[(h - 1) * w + j]);
                assert(i + 1 == (w + 1) * (h - 1) + (j + 1)) by (nonlinear_arith)
                    requires
                        i == (h - 1) * (w + 1) + j,
                ;
                vstd::arithmetic::div_mod::lemma_mod_multiples_vanish(h - 1, j + 1, w + 1);
                vstd::arithmetic::div_mod::lemma_small_mod((j + 1) as nat, (w + 1) as nat);
            }
        }
    }
}

/// Writes an ink grid as character art: one density glyph per cell, rows
/// separated by single newlines, no trailing newline.
pub fn grid_to_ascii(g: &InkGrid) -> (s: String)
    requires
        g.wf(),
    ensures
        s@ == spec_canvas(g.cells@, g.w as int, g.h as int),
{
    let w: usize = g.w;
    let h: usize = g.h;
    let mut s = String::new();
    let mut y: usize = 0;
    while y < h
        invariant
            g.wf(),
            w == g.w,
            h == g.h,
            0 <= y <= h,
            s@ == spec_canvas_upto(g.cells@, w as int, y as int),
        decreases h - y,
    {
        if y > 0 {
            s.push('\n');
        }
        let mut x: usize = 0;
        while x < w
            invariant
                g.wf(),
                w == g.w,
                h == g.h,
                0 <= y < h,
                0 <= x <= w,
                s@ == (if y == 0 {
                    Seq::<char>::empty()
                } else {
                    spec_canvas_upto(g.cells@, w as int, y as int).push('\n')
                }) + Seq::new(x as nat, |k: int| spec_cell_glyph(g.cells@[(y as int) * w + k])),
            decreases w - x,
        {
            proof {
                lemma_grid_index(g, x as int, y as int);
            }
            let v: u8 = g.cells[y * w + x];
            let gi = ramp_index(v, DENSITY_LEN);
            let c = density_glyph(gi);
            s.push(c);
            proof {
                assert(Seq::new((x + 1) as nat, |k: int| spec_cell_glyph(g.cells@[(y as int) * w
                    + k])) =~= Seq::new(x as nat, |k: int| spec_cell_glyph(g.cells@[(y as int) * w
                    + k])).push(spec_cell_glyph(g.cells@[(y as int) * w + x])));
            }
            x = x + 1;
        }
        proof {
            assert(Seq::new(w as nat, |k: int| spec_cell_glyph(g.cells@[(y as int) * w + k]))
                =~= spec_row(g.cells@, w as int, y as int));
            if y == 0 {
                assert(s@ =~= spec_canvas_upto(g.cells@, w as int, 1));
            } else {
                assert(s@ =~= spec_canvas_upto(g.cells@, w as int, y + 1));
            }
        }
        y = y + 1;
    }
    s
}

/// The character grid a document of intrinsic size `(dw, dh)` takes
/// under canvas bounds `(mw, mh)`: scaled uniformly by
/// `min(mw / dw, mh / dh)`, with the column count further capped at
/// `2 * mw` to correct for terminal cells being about twice as tall as
/// wide.
pub open spec fn spec_ascii_dims(dw: int, dh: int, mw: int, mh: int) -> (int, int) {
    let d = spec_fit_box(dw, dh, mw, mh);
    (
        if d.0 <= 2 * mw {
            d.0
        } else {
            2 * mw
        },
        d.1,
    )
}

/// The character art the internal pipeline yields for a parsed document
/// of intrinsic size `(dw, dh)` under canvas bounds `(mw, mh)`: the
/// grid of `spec_ascii_dims`, rasterized at twice that resolution and
/// area-averaged down to one glyph per cell.
pub open spec fn spec_ascii_of(data: Seq<u8>, dw: int, dh: int, mw: int, mh: int) -> Seq<char> {
    let dims = spec_ascii_dims(dw, dh, mw, mh);
    let px = raster_of(data, (2 * dims.0) as u32, (2 * dims.1) as u32);
    let ink = spec_quantize(px, (2 * dims.0) * (2 * dims.1));
    let cells = spec_downsample(ink, 2 * dims.0, 2, dims.0, dims.1);
    spec_canvas(cells, dims.0, dims.1)
}

/// The internal pipeline, ascii mode: rasterize, quantize, downsample,
/// select glyphs. Succeeds exactly when the document parses; a parse
/// failure (including degenerate geometry) is a `ParseError`.
pub fn render_svg_to_ascii(data: &Vec<u8>, max_width: u32, max_height: u32) -> (r: Result<
    String,
    RenderError,
>)
    requires
        1 <= max_width <= 512,
        1 <= max_height <= 512,
    ensures
        match svg_size_of(data@) {
            Some(d) => r matches Ok(s) && s@ == spec_ascii_of(
                data@,
                d.0 as int,
                d.1 as int,
                max_width as int,
                max_height as int,
            ),
            None => r matches Err(e) && e == RenderError::ParseError,
        },
{
    let size = svg_intrinsic_size(data);
    match size {
        None => Err(RenderError::ParseError),
        Some((dw, dh)) => {
            let dims = fit_box(dw, dh, max_width, max_height);
            let gw = if dims.0 <= 2 * max_width {
                dims.0
            } else {
                2 * max_width
            };
            let gh = dims.1;
            let px = render_rgba(data, 2 * gw, 2 * gh);
            match px {
                Some(p) => {
                    let ink = quantize(&p, (2 * gw) as usize, (2 * gh) as usize);
                    let cells = block_average(&ink, 2, gw as usize, gh as usize);
                    let s = grid_to_ascii(&cells);
                    Ok(s)
                },
                None => {
                    proof {
                        assert(false);
                    }
                    Err(RenderError::ParseError)
                },
            }
        },
    }
}

/// Every character-art canvas is rectangular, and bounded by its
/// configuration: its rows all have one equal length, that length stays
/// within twice the configured width, the row count stays within the
/// configured height, and single newlines stand exactly at the
/// positions that close a row, with none at the end.
pub proof fn lemma_ascii_rectangular(data: Seq<u8>, dw: int, dh: int, mw: int, mh: int)
    requires
        1 <= dw,
        1 <= dh,
        1 <= mw,
        1 <= mh,
    ensures
        ({
            let dims = spec_ascii_dims(dw, dh, mw, mh);
            let canvas = spec_ascii_of(data, dw, dh, mw, mh);
            &&& 1 <= dims.0 <= 2 * mw
            &&& 1 <= dims.1 <= mh
            &&& canvas.len() == dims.1 * (dims.0 + 1) - 1
            &&& forall|i: int|
                0 <= i < canvas.len() ==> ((#[trigger] canvas[i]) == '\n' <==> (i + 1) % (dims.0
                    + 1) == 0)
        }),
{
    crate::fit::lemma_fit_box_bounds(dw, dh, mw, mh);
    let dims = spec_ascii_dims(dw, dh, mw, mh);
    let px = raster_of(data, (2 * dims.0) as u32, (2 * dims.1) as u32);
    let ink = spec_quantize(px, (2 * dims.0) * (2 * dims.1));
    let cells = spec_downsample(ink, 2 * dims.0, 2, dims.0, dims.1);
    lemma_canvas_shape(cells, dims.0, dims.1);
}

/// Whether a cell grid is faint overall: mean ink under a tenth of full.
pub open spec fn spec_is_faint(c: Seq<u8>) -> bool {
    10 * seq_sum(c) < 255 * c.len()
}

/// Whether a cell grid is saturated overall: mean ink over nine tenths
/// of full.
pub open spec fn spec_is_saturated(c: Seq<u8>) -> bool {
    10 * seq_sum(c) > 9 * (255 * c.len())
}

/// Contrast class of a cell grid, from the population spread of its ink
/// about the mean: the high band is a standard deviation over 0.3 of
/// full ink, the medium band over 0.15.
#[derive(Clone, Copy, Debug, PartialEq, Eq, Structural)]
pub enum ContrastBand {
    High,
    Medium,
    Low,
}

/// Contrast class, decided by comparing the scaled sum of squared
/// deviations against the squared thresholds, written exactly over
/// integers: the 0.3 threshold squared is 5852.25 in ink units, the 0.15
/// threshold squared 1463.0625.
pub open spec fn spec_contrast_band(c: Seq<u8>) -> ContrastBand {
    let n = c.len() as int;
    if 100 * spec_ssd(c) > 585225 * ((n * n) * n) {
        ContrastBand::High
    } else if 16 * spec_ssd(c) > 23409 * ((n * n) * n) {
        ContrastBand::Medium
    } else {
        ContrastBand::Low
    }
}

/// The glyph ramp drawn on for a contrast class. Every class shares the
/// one unified block ramp: the bands are kept apart only so the
/// classification stays visible, not to change the drawing.
pub open spec fn spec_band_ramp(b: ContrastBand) -> Seq<char> {
    match b {
        ContrastBand::High => spec_icon_ramp(),
        ContrastBand::Medium => spec_icon_ramp(),
        ContrastBand::Low => spec_icon_ramp(),
    }
}

/// The single glyph standing for a whole downsampled icon grid: a faint
/// grid forces the blank glyph and a saturated one the full block, for
/// legibility at the extremes; otherwise the mean ink picks a glyph from
/// the ramp of the grid's contrast class.
pub open spec fn spec_icon_glyph(c: Seq<u8>) -> char {
    if spec_is_faint(c) {
        ' '
    } else if spec_is_saturated(c) {
        '\u{2588}'
    } else {
        let ramp = spec_band_ramp(spec_contrast_band(c));
        ramp[spec_ramp_index(seq_sum(c) / (c.len() as int), ramp.len() as int)]
    }
}

/// Contrast class of a cell grid, as executable code.
pub fn contrast_band(cells: &Vec<u8>) -> (b: ContrastBand)
    requires
        1 <= cells@.len() <= 4096,
    ensures
        b == spec_contrast_band(cells@),
{
    let n: u64 = cells.len() as u64;
    let ssd: u64 = cells_ssd(cells);
    proof {
        assert(n * n <= 4096 * 4096 && (n * n) * n <= (4096 * 4096) * 4096 && 65025 * (((
        n as int) * n) * n) <= 65025 * ((4096 * 4096) * 4096)) by (nonlinear_arith)
            requires
                1 <= n <= 4096,
        ;
    }
    let n3: u64 = (n * n) * n;
    if 100 * ssd > 585225 * n3 {
        ContrastBand::High
    } else if 16 * ssd > 23409 * n3 {
        ContrastBand::Medium
    } else {
        ContrastBand::Low
    }
}

/// The single glyph for a downsampled icon grid, as executable code.
pub fn icon_glyph(cells: &Vec<u8>) -> (c: char)
    requires
        1 <= cells@.len() <= 4096,
    ensures
        c == spec_icon_glyph(cells@),
{
    let n: u64 = cells.len() as u64;
    let sum: u64 = cells_sum(cells);
    if 10 * sum < 255 * n {
        ' '
    } else if 10 * sum > 9 * (255 * n) {
        '\u{2588}'
    } else {
        let band = contrast_band(cells);
        let mean: u64 = sum / n;
        proof {
            vstd::arithmetic::div_mod::lemma_fundamental_div_mod(sum as int, n as int);
            vstd::arithmetic::div_mod::lemma_mod_bound(sum as int, n as int);
            assert((sum as int) / (n as int) <= 255) by (nonlinear_arith)
                requires
                    sum as int <= 255 * (n as int),
                    1 <= n,
                    sum as int == (n as int) * ((sum as int) / (n as int)) + (sum as int) % (
                    n as int),
                    0 <= (sum as int) % (n as int) < (n as int),
            ;
        }
        let gi = ramp_index(mean as u8, ICON_RAMP_LEN);
        let g = icon_ramp_glyph(gi);
        proof {
            assert(spec_band_ramp(band) == spec_icon_ramp());
        }
        g
    }
}

/// A grid that is dark nearly everywhere — every cell at least 195 of
/// 255 ink, as a solid dark fill leaves — draws its one glyph from the
/// heavy end of the block ramp.
pub proof fn lemma_icon_glyph_dark(c: Seq<u8>)
    requires
        1 <= c.len(),
        forall|i: int| 0 <= i < c.len() ==> (#[trigger] c[i]) >= 195,
    ensures
        spec_icon_glyph(c) == '\u{2593}' || spec_icon_glyph(c) == '\u{2588}',
{
    let n = c.len() as int;
    let sum = seq_sum(c);
    crate::grid::lemma_seq_sum_lower(c, 195);
    crate::grid::lemma_seq_sum_bounds(c);
    assert(10 * sum >= 255 * n) by (nonlinear_arith)
        requires
            sum >= 195 * n,
            n >= 1,
    ;
    assert(!spec_is_faint(c));
    if !spec_is_saturated(c) {
        let mean = sum / n;
        vstd::arithmetic::div_mod::lemma_div_is_ordered(195 * n, sum, n);
        vstd::arithmetic::div_mod::lemma_fundamental_div_mod_converse(195 * n, n, 195, 0);
        vstd::arithmetic::div_mod::lemma_div_is_ordered(sum, 255 * n, n);
        vstd::arithmetic::div_mod::lemma_fundamental_div_mod_converse(255 * n, n, 255, 0);
        assert(195 <= mean <= 255);
        crate::glyphs::lemma_ramp_index_in_range(mean, 5);
        crate::glyphs::lemma_ramp_index_monotone(195, mean, 5);
        vstd::arithmetic::div_mod::lemma_fundamental_div_mod_converse(
            2 * 195 * (5 - 1) + 255,
            510int,
            3,
            285,
        );
        assert(spec_ramp_index(195, 5) == 3);
        let idx = spec_ramp_index(mean, 5);
        assert(3 <= idx < 5);
        assert(spec_band_ramp(spec_contrast_band(c)) == spec_icon_ramp());
        if idx == 3 {
            assert(spec_icon_ramp()[3] == '\u{2593}');
        } else {
            assert(idx == 4);
            assert(spec_icon_ramp()[4] == '\u{2588}');
        }
    }
}

/// A grid that is bright nearly everywhere — every cell at most 25 of
/// 255 ink, as a near-white fill leaves — draws the blank glyph.
pub proof fn lemma_icon_glyph_bright(c: Seq<u8>)
    requires
        1 <= c.len(),
        forall|i: int| 0 <= i < c.len() ==> (#[trigger] c[i]) <= 25,
    ensures
        spec_icon_glyph(c) == ' ',
{
    let n = c.len() as int;
    crate::grid::lemma_seq_sum_upper(c, 25);
    assert(10 * seq_sum(c) < 255 * n) by (nonlinear_arith)
        requires
            seq_sum(c) <= 25 * n,
            n >= 1,
    ;
    assert(spec_is_faint(c));
}

/// The downsampled icon grid the internal pipeline yields for a parsed
/// document of intrinsic size `(dw, dh)`: the document is fitted, never
/// enlarged, into the supersampled square canvas with one sample of
/// padding per side, centred, and area-averaged down to the icon grid.
pub open spec fn spec_icon_cells(data: Seq<u8>, dw: int, dh: int) -> Seq<u8> {
    let dims = spec_fit_icon(dw, dh, ICON_INNER as int);
    let px = raster_of(data, dims.0 as u32, dims.1 as u32);
    let ink = spec_quantize(px, dims.0 * dims.1);
    let sq = spec_embed(
        ink,
        dims.0,
        dims.1,
        ICON_SIZE as int,
        (ICON_SIZE - dims.0) / 2,
        (ICON_SIZE - dims.1) / 2,
    );
    spec_downsample(sq, ICON_SIZE as int, 8, ICON_GRID as int, ICON_GRID as int)
}

/// The single glyph the internal pipeline yields for a parsed document.
pub open spec fn spec_icon_of(data: Seq<u8>, dw: int, dh: int) -> char {
    spec_icon_glyph(spec_icon_cells(data, dw, dh))
}

/// The internal pipeline, icon mode: rasterize centred into a square
/// supersampled canvas, quantize, downsample to the icon grid, and pick
/// one glyph. Succeeds exactly when the document parses.
pub fn render_svg_to_mini_icon(data: &Vec<u8>) -> (r: Result<char, RenderError>)
    ensures
        match svg_size_of(data@) {
            Some(d) => r matches Ok(c) && c == spec_icon_of(data@, d.0 as int, d.1 as int),
            None => r matches Err(e) && e == RenderError::ParseError,
        },
{
    let size = svg_intrinsic_size(data);
    match size {
        None => Err(RenderError::ParseError),
        Some((dw, dh)) => {
            let dims = fit_icon(dw, dh, ICON_INNER);
            let tw = dims.0;
            let th = dims.1;
            let px = render_rgba(data, tw, th);
            match px {
                Some(p) => {
                    let ink = quantize(&p, tw as usize, th as usize);
                    let ox: usize = ((ICON_SIZE - tw) / 2) as usize;
                    let oy: usize = ((ICON_SIZE - th) / 2) as usize;
                    let sq = embed(&ink, ICON_SIZE as usize, ox, oy);
                    let cells = block_average(&sq, 8, ICON_GRID, ICON_GRID);
                    let c = icon_glyph(&cells.cells);
                    Ok(c)
                },
                None => {
                    proof {
                        assert(false);
                    }
                    Err(RenderError::ParseError)
                },
            }
        },
    }
}

/// What the caller saw of the external renderer: absent, run and
/// failed, or run and succeeded with the text it produced. The caller
/// runs the subprocess; the library only decides with the outcome.
pub enum ExternalAttempt {
    Unavailable,
    Failed,
    Succeeded(String),
}

/// Whether one representative glyph or a whole character-art canvas is
/// asked for.
#[derive(Clone, Copy, Debug, PartialEq, Eq, Structural)]
pub enum RenderMode {
    Icon,
    Canvas,
}

/// Which strategy of the fallback chain produced a result; diagnostic
/// only, it changes no behaviour.
#[derive(Clone, Copy, Debug, PartialEq, Eq, Structural)]
pub enum StrategyKind {
    External,
    Internal,
    Sniff,
}

/// A finished render: one glyph, or a rectangular multi-line canvas.
#[derive(Debug)]
pub enum RenderOutput {
    Glyph(String),
    Canvas(String),
}

/// A render together with the strategy that produced it.
#[derive(Debug)]
pub struct RenderResult {
    pub strategy: StrategyKind,
    pub output: RenderOutput,
}

/// Which strategies of the fallback chain may run, and the canvas
/// bounds of the internal pipeline.
pub struct RenderConfig {
    pub use_external: bool,
    pub use_internal: bool,
    pub use_sniff: bool,
    pub max_width: u32,
    pub max_height: u32,
}

impl RenderConfig {
    /// Well-formed: canvas bounds positive and small enough for every
    /// intermediate buffer.
    pub open spec fn wf(&self) -> bool {
        1 <= self.max_width <= 512 && 1 <= self.max_height <= 512
    }
}

impl Default for RenderConfig {
    /// Every strategy enabled, and a canvas of 40 columns by 20 rows.
    fn default() -> (c: Self)
        ensures
            c.wf(),
            c.use_external && c.use_internal && c.use_sniff,
            c.max_width == 40,
            c.max_height == 20,
    {
        RenderConfig {
            use_external: true,
            use_internal: true,
            use_sniff: true,
            max_width: 40,
            max_height: 20,
        }
    }
}

/// The bytes the caller managed to read, as a sequence; `None` when the
/// path was missing or unreadable.
pub open spec fn spec_bytes_view(b: &Option<Vec<u8>>) -> Option<Seq<u8>> {
    match b {
        Some(v) => Some(v@),
        None => None,
    }
}

/// The external strategy settles the render: it is enabled and its
/// subprocess succeeded.
pub open spec fn sel_external(cfg: &RenderConfig, ext: &ExternalAttempt) -> bool {
    cfg.use_external && ext is Succeeded
}

/// The internal strategy settles the render: no earlier strategy did,
/// it is enabled, the bytes were read and they parse.
pub open spec fn sel_internal(
    cfg: &RenderConfig,
    ext: &ExternalAttempt,
    b: Option<Seq<u8>>,
) -> bool {
    &&& !sel_external(cfg, ext)
    &&& cfg.use_internal
    &&& b is Some
    &&& svg_size_of(b->Some_0) is Some
}

/// The sniffer settles the render: no earlier strategy did, it is
/// enabled, and the bytes were read (it never fails on read bytes).
pub open spec fn sel_sniff(cfg: &RenderConfig, ext: &ExternalAttempt, b: Option<Seq<u8>>) -> bool {
    &&& !sel_external(cfg, ext)
    &&& !sel_internal(cfg, ext, b)
    &&& cfg.use_sniff
    &&& b is Some
}

/// The error surfaced when every strategy is exhausted: an unreadable
/// path before anything else; then a parse failure when the internal
/// pipeline ran and the sniffer could not catch it; otherwise only the
/// external tool was available and it failed or was absent.
pub open spec fn spec_fail_error(cfg: &RenderConfig, b: Option<Seq<u8>>) -> RenderError {
    if b is None {
        RenderError::IoError
    } else if cfg.use_internal {
        RenderError::ParseError
    } else {
        RenderError::ExternalToolError
    }
}

/// The output holds one glyph whose characters are `s`.
pub open spec fn output_is_glyph(o: &RenderOutput, s: Seq<char>) -> bool {
    o matches RenderOutput::Glyph(g) && g@ == s
}

/// The output holds a canvas whose characters are `s`.
pub open spec fn output_is_canvas(o: &RenderOutput, s: Seq<char>) -> bool {
    o matches RenderOutput::Canvas(c) && c@ == s
}

/// A single character as a string.
fn char_to_string(c: char) -> (s: String)
    ensures
        s@ == seq![c],
{
    let mut s = String::new();
    s.push(c);
    proof {
        assert(s@ =~= seq![c]);
    }
    s
}

/// The fallback chain, and the one entry point callers use: the
/// external renderer's outcome first, then the internal pipeline, then
/// the sniffer, in that fixed order; the first strategy with a usable
/// result returns at once, and only exhaustion of every strategy
/// surfaces an error.
pub fn render_with(
    cfg: &RenderConfig,
    external: ExternalAttempt,
    mode: RenderMode,
    name: &str,
    bytes: &Option<Vec<u8>>,
) -> (r: Result<RenderResult, RenderError>)
    requires
        cfg.wf(),
    ensures
        sel_external(cfg, &external) ==> (r matches Ok(res) && res.strategy
            == StrategyKind::External && (external matches ExternalAttempt::Succeeded(t)
            && output_is_canvas(&res.output, t@))),
        sel_internal(cfg, &external, spec_bytes_view(bytes)) ==> (r matches Ok(res)
            && res.strategy == StrategyKind::Internal && {
            let b = spec_bytes_view(bytes)->Some_0;
            let d = svg_size_of(b)->Some_0;
            match mode {
                RenderMode::Icon => output_is_glyph(
                    &res.output,
                    seq![spec_icon_of(b, d.0 as int, d.1 as int)],
                ),
                RenderMode::Canvas => output_is_canvas(
                    &res.output,
                    spec_ascii_of(
                        b,
                        d.0 as int,
                        d.1 as int,
                        cfg.max_width as int,
                        cfg.max_height as int,
                    ),
                ),
            }
        }),
        sel_sniff(cfg, &external, spec_bytes_view(bytes)) ==> (r matches Ok(res) && res.strategy
            == StrategyKind::Sniff && output_is_glyph(
            &res.output,
            spec_sniff_icon(name.spec_bytes(), spec_bytes_view(bytes)->Some_0),
        )),
        (!sel_external(cfg, &external) && !sel_internal(cfg, &external, spec_bytes_view(bytes))
            && !sel_sniff(cfg, &external, spec_bytes_view(bytes))) ==> (r matches Err(e) && e
            == spec_fail_error(cfg, spec_bytes_view(bytes))),
{
    let taken: Option<String> = if cfg.use_external {
        match external {
            ExternalAttempt::Succeeded(s) => Some(s),
            _ => None,
        }
    } else {
        None
    };
    match taken {
        Some(s) => {
            return Ok(
                RenderResult { strategy: StrategyKind::External, output: RenderOutput::Canvas(s) },
            );
        },
        None => {},
    }
    match bytes {
        None => Err(RenderError::IoError),
        Some(b) => {
            if cfg.use_internal {
                match mode {
                    RenderMode::Icon => {
                        match render_svg_to_mini_icon(b) {
                            Ok(c) => {
                                return Ok(
                                    RenderResult {
                                        strategy: StrategyKind::Internal,
                                        output: RenderOutput::Glyph(char_to_string(c)),
                                    },
                                );
                            },
                            Err(_) => {},
                        }
                    },
                    RenderMode::Canvas => {
                        match render_svg_to_ascii(b, cfg.max_width, cfg.max_height) {
                            Ok(s) => {
                                return Ok(
                                    RenderResult {
                                        strategy: StrategyKind::Internal,
                                        output: RenderOutput::Canvas(s),
                                    },
                                );
                            },
                            Err(_) => {},
                        }
                    },
                }
            }
            if cfg.use_sniff {
                let ic = sniff_icon(name, b);
                return Ok(
                    RenderResult {
                        strategy: StrategyKind::Sniff,
                        output: RenderOutput::Glyph(ic.to_owned()),
                    },
                );
            }
            if cfg.use_internal {
                Err(RenderError::ParseError)
            } else {
                Err(RenderError::ExternalToolError)
            }
        },
    }
}

/// The glyph the fallback chain settles on for read bytes when the
/// external renderer stays out of it: the internal icon when the
/// document parses, else the sniffer's glyph, whose first character
/// stands in (or the fallback square for an empty one).
pub open spec fn spec_mini_icon_of(nb: Seq<u8>, b: Seq<u8>) -> char {
    match svg_size_of(b) {
        Some(d) => spec_icon_of(b, d.0 as int, d.1 as int),
        None => {
            let s = spec_sniff_icon(nb, b);
            if s.len() == 0 {
                '\u{25a6}'
            } else {
                s[0]
            }
        },
    }
}

/// One representative character for a document: the internal icon
/// pipeline first, then the sniffer; fails only when the bytes could
/// not be read at all.
pub fn svg_to_mini_icon(name: &str, bytes: &Option<Vec<u8>>) -> (r: Result<char, RenderError>)
    ensures
        match spec_bytes_view(bytes) {
            None => r matches Err(e) && e == RenderError::IoError,
            Some(b) => r matches Ok(c) && c == spec_mini_icon_of(name.spec_bytes(), b),
        },
{
    let cfg = RenderConfig {
        use_external: false,
        use_internal: true,
        use_sniff: true,
        max_width: 40,
        max_height: 20,
    };
    match render_with(&cfg, ExternalAttempt::Unavailable, RenderMode::Icon, name, bytes) {
        Ok(res) => {
            match res.output {
                RenderOutput::Glyph(s) => Ok(first_char_or(s.as_str(), '\u{25a6}')),
                RenderOutput::Canvas(s) => Ok(first_char_or(s.as_str(), '\u{25a6}')),
            }
        },
        Err(e) => Err(e),
    }
}

/// The sniffer alone, on a path's name and its read bytes; an
/// unreadable path is the one error.
pub fn get_simple_icon(name: &str, content: &Option<Vec<u8>>) -> (r: Result<
    &'static str,
    RenderError,
>)
    ensures
        match spec_bytes_view(content) {
            None => r matches Err(e) && e == RenderError::IoError,
            Some(b) => r matches Ok(s) && s@ == spec_sniff_icon(name.spec_bytes(), b),
        },
{
    match content {
        None => Err(RenderError::IoError),
        Some(b) => Ok(sniff_icon(name, b)),
    }
}

/// Rendering is deterministic: any two canvases, or any two icon
/// glyphs, produced from the same document bytes under the same bounds
/// are identical, because every render is pinned to one function of the
/// bytes and the bounds.
pub proof fn lemma_render_deterministic(
    data: Seq<u8>,
    dw: int,
    dh: int,
    mw: int,
    mh: int,
    c1: Seq<char>,
    c2: Seq<char>,
    g1: char,
    g2: char,
)
    requires
        c1 == spec_ascii_of(data, dw, dh, mw, mh),
        c2 == spec_ascii_of(data, dw, dh, mw, mh),
        g1 == spec_icon_of(data, dw, dh),
        g2 == spec_icon_of(data, dw, dh),
    ensures
        c1 == c2,
        g1 == g2,
{
}

} // verus!
