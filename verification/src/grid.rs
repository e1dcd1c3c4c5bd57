use vstd::prelude::*;

verus! {

/// Largest accepted edge of a grid, in cells.
pub const MAX_EDGE: usize = 4096;

/// A rectangular grid of ink levels, row major, one byte per cell:
/// 0 is background-bright (no ink), 255 is fully dark.
pub struct InkGrid {
    pub w: usize,
    pub h: usize,
    pub cells: Vec<u8>,
}

impl InkGrid {
    /// Well-formed: both edges positive and bounded, and one cell per
    /// grid position.
    pub open spec fn wf(&self) -> bool {
        1 <= self.w <= MAX_EDGE && 1 <= self.h <= MAX_EDGE && self.cells@.len() == self.w * self.h
    }

    /// The ink level at column `x` of row `y`.
    pub open spec fn cell(&self, x: int, y: int) -> u8 {
        self.cells@[y * self.w + x]
    }
}

/// Luma of a pixel whose premultiplied channels are `r`, `g`, `b`, by the
/// usual broadcast weighting, scaled to `0..=255`.
pub open spec fn spec_luma(r: int, g: int, b: int) -> int {
    (299 * r + 587 * g + 114 * b) / 1000
}

/// Ink carried by one RGBA sample with premultiplied alpha: the darkness
/// the sample shows once laid over a bright background. A fully
/// transparent sample carries no ink, so transparent backgrounds never
/// pull a glyph toward the dark end.
pub open spec fn spec_ink(r: int, g: int, b: int, a: int) -> int {
    if a - spec_luma(r, g, b) >= 0 {
        a - spec_luma(r, g, b)
    } else {
        0
    }
}

/// Ink of one sample, as executable code.
pub fn ink_of_sample(r: u8, g: u8, b: u8, a: u8) -> (v: u8)
    ensures
        v == spec_ink(r as int, g as int, b as int, a as int),
{
    let lp: u32 = (299 * (r as u32) + 587 * (g as u32) + 114 * (b as u32)) / 1000;
    let av: u32 = a as u32;
    if av >= lp {
        (av - lp) as u8
    } else {
        0
    }
}

/// The ink grid cells of a whole RGBA sample buffer of `n` samples.
pub open spec fn spec_quantize(px: Seq<u8>, n: int) -> Seq<u8> {
    Seq::new(
        n as nat,
        |i: int|
            spec_ink(
                px[4 * i] as int,
                px[4 * i + 1] as int,
                px[4 * i + 2] as int,
                px[4 * i + 3] as int,
            ) as u8,
    )
}

/// Reduces an RGBA sample buffer (premultiplied alpha, row major) to its
/// ink grid, sample for sample; a pure, total function.
pub fn quantize(rgba: &Vec<u8>, w: usize, h: usize) -> (g: InkGrid)
    requires
        1 <= w <= MAX_EDGE,
        1 <= h <= MAX_EDGE,
        rgba@.len() == 4 * (w * h),
    ensures
        g.wf(),
        g.w == w,
        g.h == h,
        g.cells@ == spec_quantize(rgba@, (w * h) as int),
{
    proof {
        assert(w * h <= MAX_EDGE * MAX_EDGE) by (nonlinear_arith)
            requires
                1 <= w <= MAX_EDGE,
                1 <= h <= MAX_EDGE,
        ;
    }
    let n: usize = w * h;
    let mut cells: Vec<u8> = Vec::new();
    let mut i: usize = 0;
    while i < n
        invariant
            0 <= i <= n,
            n == w * h,
            n <= MAX_EDGE * MAX_EDGE,
            rgba@.len() == 4 * n,
            cells@.len() == i,
            forall|k: int|
                0 <= k < i ==> cells@[k] == spec_ink(
                    rgba@[4 * k] as int,
                    rgba@[4 * k + 1] as int,
                    rgba@[4 * k + 2] as int,
                    rgba@[4 * k + 3] as int,
                ),
        decreases n - i,
    {
        let base: usize = 4 * i;
        let v = ink_of_sample(rgba[base], rgba[base + 1], rgba[base + 2], rgba[base + 3]);
        cells.push(v);
        i = i + 1;
    }
    proof {
        assert(cells@ =~= spec_quantize(rgba@, (w * h) as int));
    }
    InkGrid { w, h, cells }
}

/// Sum of a sequence of ink levels.
pub open spec fn seq_sum(s: Seq<u8>) -> int
    decreases s.len(),
{
    if s.len() == 0 {
        0
    } else {
        seq_sum(s.drop_last()) + s.last()
    }
}

/// A sum of ink levels lies between 0 and 255 per cell.
pub proof fn lemma_seq_sum_bounds(s: Seq<u8>)
    ensures
        0 <= seq_sum(s) <= 255 * s.len(),
    decreases s.len(),
{
    if s.len() > 0 {
        lemma_seq_sum_bounds(s.drop_last());
    }
}

/// A floor under every cell is a floor under the mean ink.
pub proof fn lemma_seq_sum_lower(s: Seq<u8>, lo: u8)
    requires
        forall|i: int| 0 <= i < s.len() ==> (#[trigger] s[i]) >= lo,
    ensures
        seq_sum(s) >= lo * s.len(),
    decreases s.len(),
{
    if s.len() > 0 {
        assert(forall|i: int|
            0 <= i < s.drop_last().len() ==> (#[trigger] s.drop_last()[i]) == s[i]);
        lemma_seq_sum_lower(s.drop_last(), lo);
        assert(s.last() >= lo);
        assert(lo * (s.len() - 1) + lo == lo * s.len()) by (nonlinear_arith);
    }
}

/// A cap over every cell is a cap over the mean ink.
pub proof fn lemma_seq_sum_upper(s: Seq<u8>, hi: u8)
    requires
        forall|i: int| 0 <= i < s.len() ==> (#[trigger] s[i]) <= hi,
    ensures
        seq_sum(s) <= hi * s.len(),
    decreases s.len(),
{
    if s.len() > 0 {
        assert(forall|i: int|
            0 <= i < s.drop_last().len() ==> (#[trigger] s.drop_last()[i]) == s[i]);
        lemma_seq_sum_upper(s.drop_last(), hi);
        assert(s.last() <= hi);
        assert(hi * (s.len() - 1) + hi == hi * s.len()) by (nonlinear_arith);
    }
}

/// Sum of the `len` cells of row `y` starting at column `x`.
pub open spec fn row_seg_sum(c: Seq<u8>, gw: int, x: int, y: int, len: int) -> int {
    seq_sum(c.subrange(y * gw + x, y * gw + x + len))
}

/// Sum of the `rows` * `f` cells of the block whose top-left corner is
/// `(x, y)`, taking `f` cells from each of the first `rows` rows.
pub open spec fn block_part_sum(c: Seq<u8>, gw: int, x: int, y: int, f: int, rows: int) -> int
    decreases rows,
{
    if rows <= 0 {
        0
    } else {
        block_part_sum(c, gw, x, y, f, rows - 1) + row_seg_sum(c, gw, x, y + rows - 1, f)
    }
}

/// Sum of the `f` by `f` block of cells whose top-left corner is `(x, y)`.
pub open spec fn block_sum(c: Seq<u8>, gw: int, x: int, y: int, f: int) -> int {
    block_part_sum(c, gw, x, y, f, f)
}

/// Mean ink of the `f` by `f` block at `(x, y)`, rounded down.
pub open spec fn spec_block_avg(c: Seq<u8>, gw: int, x: int, y: int, f: int) -> int {
    block_sum(c, gw, x, y, f) / (f * f)
}

/// A row-major position lies inside the cell vector.
proof fn lemma_rc_index(w: int, h: int, x: int, y: int)
    requires
        0 <= x < w,
        0 <= y < h,
    ensures
        0 <= y * w + x < w * h,
{
    assert(y * w + x < w * h) by (nonlinear_arith)
        requires
            0 <= x < w,
            0 <= y < h,
    ;
    assert(0 <= y * w + x) by (nonlinear_arith)
        requires
            0 <= x,
            0 <= y,
            0 < w,
    ;
}

/// The position `(x, y)` of a well-formed grid lies inside its cell
/// vector, whose length is itself bounded.
pub proof fn lemma_grid_index(g: &InkGrid, x: int, y: int)
    requires
        g.wf(),
        0 <= x < g.w,
        0 <= y < g.h,
    ensures
        0 <= y * g.w + x < g.cells@.len(),
        g.cells@.len() <= MAX_EDGE * MAX_EDGE,
{
    lemma_rc_index(g.w as int, g.h as int, x, y);
    assert(g.w * g.h <= MAX_EDGE * MAX_EDGE) by (nonlinear_arith)
        requires
            1 <= g.w <= MAX_EDGE,
            1 <= g.h <= MAX_EDGE,
    ;
}

/// Sum of the `f` by `f` block at `(bx, by)`, as executable code.
fn block_sum_exec(g: &InkGrid, bx: usize, by: usize, f: usize) -> (s: u32)
    requires
        g.wf(),
        1 <= f <= 64,
        bx + f <= g.w,
        by + f <= g.h,
    ensures
        s == block_sum(g.cells@, g.w as int, bx as int, by as int, f as int),
        s <= 255 * (f * f),
{
    let gw: usize = g.w;
    let mut acc: u32 = 0;
    let mut dy: usize = 0;
    while dy < f
        invariant
            g.wf(),
            1 <= f <= 64,
            bx + f <= g.w,
            by + f <= g.h,
            gw == g.w,
            0 <= dy <= f,
            acc == block_part_sum(g.cells@, gw as int, bx as int, by as int, f as int, dy as int),
            acc <= 255 * (f * dy),
        decreases f - dy,
    {
        let row: usize = by + dy;
        proof {
            lemma_rc_index(gw as int, g.h as int, bx as int, row as int);
            assert(row * gw + bx + f <= (row + 1) * gw && (row + 1) * gw <= g.h * gw && g.h * gw
                == gw * g.h && gw * g.h <= MAX_EDGE * MAX_EDGE) by (nonlinear_arith)
                requires
                    bx + f <= gw,
                    row < g.h,
                    0 <= row,
                    0 < gw,
                    gw <= MAX_EDGE,
                    g.h <= MAX_EDGE,
            ;
        }
        let base: usize = row * gw + bx;
        let mut dx: usize = 0;
        let mut racc: u32 = 0;
        while dx < f
            invariant
                g.wf(),
                1 <= f <= 64,
                bx + f <= g.w,
                by + f <= g.h,
                gw == g.w,
                0 <= dx <= f,
                row == by + dy,
                0 <= dy < f,
                base == row * gw + bx,
                base + f <= g.cells@.len(),
                g.cells@.len() <= MAX_EDGE * MAX_EDGE,
                racc == seq_sum(g.cells@.subrange(base as int, base + dx)),
                racc <= 255 * dx,
        decreases f - dx,
        {
            let v = g.cells[base + dx];
            proof {
                assert(g.cells@.subrange(base as int, base + dx + 1).drop_last() =~= g.cells@
                    .subrange(base as int, base + dx));
                assert(g.cells@.subrange(base as int, base + dx + 1).last() == g.cells@[base + dx]);
            }
            racc = racc + (v as u32);
            dx = dx + 1;
        }
        proof {
            assert((by + dy) * gw == by * gw + dy * gw) by (nonlinear_arith);
            assert(racc == row_seg_sum(g.cells@, gw as int, bx as int, by + dy, f as int));
            assert(255 * (f * dy) + 255 * f == 255 * (f * (dy + 1))) by (nonlinear_arith);
            assert(f * (dy + 1) <= 64 * 64) by (nonlinear_arith)
                requires
                    0 <= dy < f,
                    f <= 64,
            ;
        }
        acc = acc + racc;
        dy = dy + 1;
    }
    acc
}

/// The cells of a grid of `w` columns downsampled by `f` to `ow` by `oh`
/// cells, each the mean ink of its `f` by `f` block.
pub open spec fn spec_downsample(c: Seq<u8>, w: int, f: int, ow: int, oh: int) -> Seq<u8> {
    Seq::new((ow * oh) as nat, |k: int| spec_block_avg(c, w, f * (k % ow), f * (k / ow), f) as u8)
}

/// Downsamples a grid whose edges are exact multiples of `f` to one cell
/// per `f` by `f` block, each output cell the mean ink of its block;
/// resolution falls, content is untouched.
pub fn block_average(g: &InkGrid, f: usize, ow: usize, oh: usize) -> (r: InkGrid)
    requires
        g.wf(),
        1 <= f <= 64,
        1 <= ow,
        1 <= oh,
        g.w == f * ow,
        g.h == f * oh,
    ensures
        r.wf(),
        r.w == ow,
        r.h == oh,
        r.cells@ == spec_downsample(g.cells@, g.w as int, f as int, ow as int, oh as int),
        forall|x: int, y: int|
            0 <= x < ow && 0 <= y < oh ==> r.cell(x, y) == spec_block_avg(
                g.cells@,
                g.w as int,
                f * x,
                f * y,
                f as int,
            ),
{
    proof {
        assert(ow <= f * ow && oh <= f * oh && f * f <= 4096) by (nonlinear_arith)
            requires
                1 <= f <= 64,
                1 <= ow,
                1 <= oh,
        ;
        assert(ow * oh <= MAX_EDGE * MAX_EDGE) by (nonlinear_arith)
            requires
                1 <= ow <= MAX_EDGE,
                1 <= oh <= MAX_EDGE,
        ;
    }
    let n: usize = ow * oh;
    let mut out: Vec<u8> = Vec::new();
    let mut i: usize = 0;
    while i < n
        invariant
            g.wf(),
            1 <= f <= 64,
            1 <= ow <= MAX_EDGE,
            1 <= oh <= MAX_EDGE,
            g.w == f * ow,
            g.h == f * oh,
            n == ow * oh,
            0 <= i <= n,
            out@.len() == i,
            forall|k: int| 0 <= k < i ==> out@[k] == flat_block_avg(g, f as int, ow as int, k),
        decreases n - i,
    {
        let x: usize = i % ow;
        let y: usize = i / ow;
        proof {
            assert(y < oh) by (nonlinear_arith)
                requires
                    i < ow * oh,
                    y == i as int / ow as int,
                    0 < ow,
            ;
            assert(f * x + f <= f * ow && f * y + f <= f * oh) by (nonlinear_arith)
                requires
                    0 <= x < ow,
                    0 <= y < oh,
                    1 <= f,
            ;
        }
        let s = block_sum_exec(g, f * x, f * y, f);
        proof {
            assert(1 <= f * f <= 4096) by (nonlinear_arith)
                requires
                    1 <= f <= 64,
            ;
        }
        let d: u32 = (f * f) as u32;
        let a: u32 = s / d;
        proof {
            vstd::arithmetic::div_mod::lemma_fundamental_div_mod(s as int, d as int);
            vstd::arithmetic::div_mod::lemma_mod_bound(s as int, d as int);
            assert((s as int) / (d as int) <= 255) by (nonlinear_arith)
                requires
                    s as int <= 255 * (d as int),
                    1 <= d,
                    s as int == (d as int) * ((s as int) / (d as int)) + (s as int) % (d as int),
                    0 <= (s as int) % (d as int) < (d as int),
            ;
        }
        out.push(a as u8);
        i = i + 1;
    }
    let r = InkGrid { w: ow, h: oh, cells: out };
    proof {
        assert(r.cells@ =~= spec_downsample(g.cells@, g.w as int, f as int, ow as int, oh as int));
        assert forall|x: int, y: int| 0 <= x < ow && 0 <= y < oh implies r.cell(x, y)
            == spec_block_avg(g.cells@, g.w as int, f * x, f * y, f as int) by {
            lemma_rc_index(ow as int, oh as int, x, y);
            vstd::arithmetic::div_mod::lemma_fundamental_div_mod_converse(
                y * ow + x,
                ow as int,
                y,
                x,
            );
        }
    }
    r
}

/// The block mean belonging to flat output position `k` of a grid
/// downsampled by `f` to `ow` cells per row.
pub open spec fn flat_block_avg(g: &InkGrid, f: int, ow: int, k: int) -> int {
    spec_block_avg(g.cells@, g.w as int, f * (k % ow), f * (k / ow), f)
}

/// The ink that position `(x, y)` of a `size` by `size` canvas carries
/// when a grid of `gw` by `gh` cells `c` is laid onto it at offset
/// `(ox, oy)`: the matching cell inside the laid rectangle, no ink
/// outside it.
pub open spec fn spec_embed_cell(
    c: Seq<u8>,
    gw: int,
    gh: int,
    ox: int,
    oy: int,
    x: int,
    y: int,
) -> u8 {
    if ox <= x < ox + gw && oy <= y < oy + gh {
        c[(y - oy) * gw + (x - ox)]
    } else {
        0
    }
}

/// The embedded cell belonging to flat position `k` of the canvas.
pub open spec fn flat_embed_cell(c: Seq<u8>, gw: int, gh: int, size: int, ox: int, oy: int, k: int) -> u8 {
    spec_embed_cell(c, gw, gh, ox, oy, k % size, k / size)
}

/// The cells of a blank `size` by `size` canvas with the grid laid onto
/// it at `(ox, oy)`.
pub open spec fn spec_embed(c: Seq<u8>, gw: int, gh: int, size: int, ox: int, oy: int) -> Seq<u8> {
    Seq::new((size * size) as nat, |k: int| flat_embed_cell(c, gw, gh, size, ox, oy, k))
}

/// Lays `g` onto a blank `size` by `size` canvas with its top-left
/// corner at `(ox, oy)`; every cell outside the laid rectangle stays
/// blank.
pub fn embed(g: &InkGrid, size: usize, ox: usize, oy: usize) -> (r: InkGrid)
    requires
        g.wf(),
        1 <= size <= MAX_EDGE,
        ox + g.w <= size,
        oy + g.h <= size,
    ensures
        r.wf(),
        r.w == size,
        r.h == size,
        r.cells@ == spec_embed(g.cells@, g.w as int, g.h as int, size as int, ox as int, oy as int),
        forall|x: int, y: int|
            0 <= x < size && 0 <= y < size ==> r.cell(x, y) == spec_embed_cell(
                g.cells@,
                g.w as int,
                g.h as int,
                ox as int,
                oy as int,
                x,
                y,
            ),
{
    proof {
        assert(size * size <= MAX_EDGE * MAX_EDGE) by (nonlinear_arith)
            requires
                1 <= size <= MAX_EDGE,
        ;
    }
    let n: usize = size * size;
    let mut out: Vec<u8> = Vec::new();
    let mut i: usize = 0;
    while i < n
        invariant
            g.wf(),
            1 <= size <= MAX_EDGE,
            ox + g.w <= size,
            oy + g.h <= size,
            n == size * size,
            0 <= i <= n,
            out@.len() == i,
            forall|k: int|
                0 <= k < i ==> out@[k] == flat_embed_cell(
                    g.cells@,
                    g.w as int,
                    g.h as int,
                    size as int,
                    ox as int,
                    oy as int,
                    k,
                ),
        decreases n - i,
    {
        let x: usize = i % size;
        let y: usize = i / size;
        let v: u8 = if x >= ox && x < ox + g.w && y >= oy && y < oy + g.h {
            proof {
                lemma_rc_index(g.w as int, g.h as int, x - ox, y - oy);
                assert(g.w * g.h <= MAX_EDGE * MAX_EDGE) by (nonlinear_arith)
                    requires
                        1 <= g.w <= MAX_EDGE,
                        1 <= g.h <= MAX_EDGE,
                ;
            }
            g.cells[(y - oy) * g.w + (x - ox)]
        } else {
            0
        };
        out.push(v);
        i = i + 1;
    }
    let r = InkGrid { w: size, h: size, cells: out };
    proof {
        assert(r.cells@ =~= spec_embed(g.cells@, g.w as int, g.h as int, size as int, ox as int, oy as int));
        assert forall|x: int, y: int| 0 <= x < size && 0 <= y < size implies r.cell(x, y)
            == spec_embed_cell(g.cells@, g.w as int, g.h as int, ox as int, oy as int, x, y) by {
            lemma_rc_index(size as int, size as int, x, y);
            vstd::arithmetic::div_mod::lemma_fundamental_div_mod_converse(
                y * size + x,
                size as int,
                y,
                x,
            );
        }
    }
    r
}

/// Sum of all ink in a cell vector, as executable code.
pub fn cells_sum(cells: &Vec<u8>) -> (s: u64)
    requires
        cells@.len() <= 4096,
    ensures
        s == seq_sum(cells@),
        s <= 255 * cells@.len(),
{
    let n: usize = cells.len();
    let mut acc: u64 = 0;
    let mut i: usize = 0;
    while i < n
        invariant
            n == cells@.len() <= 4096,
            0 <= i <= n,
            acc == seq_sum(cells@.subrange(0, i as int)),
            acc <= 255 * i,
        decreases n - i,
    {
        proof {
            assert(cells@.subrange(0, i + 1).drop_last() =~= cells@.subrange(0, i as int));
            assert(cells@.subrange(0, i + 1).last() == cells@[i as int]);
        }
        acc = acc + (cells[i] as u64);
        i = i + 1;
    }
    proof {
        assert(cells@.subrange(0, n as int) =~= cells@);
    }
    acc
}

/// Square of an integer.
pub open spec fn spec_sq(x: int) -> int {
    x * x
}

/// Scaled sum of squared deviations over the first `k` cells: each term
/// is the square of `len * cell - sum`, so the population variance of
/// the whole vector is this quantity over `len` cubed.
pub open spec fn ssd_prefix(c: Seq<u8>, len: int, sum: int, k: int) -> int
    decreases k,
{
    if k <= 0 {
        0
    } else {
        ssd_prefix(c, len, sum, k - 1) + spec_sq(len * c[k - 1] - sum)
    }
}

/// The scaled sum of squared deviations of a whole cell vector about its
/// own mean.
pub open spec fn spec_ssd(c: Seq<u8>) -> int {
    ssd_prefix(c, c.len() as int, seq_sum(c), c.len() as int)
}

/// Scaled sum of squared deviations, as executable code.
pub fn cells_ssd(cells: &Vec<u8>) -> (s: u64)
    requires
        cells@.len() <= 4096,
    ensures
        s == spec_ssd(cells@),
        s <= 65025 * ((cells@.len() * cells@.len()) * cells@.len()),
{
    let n: usize = cells.len();
    let sum: u64 = cells_sum(cells);
    let nn: u64 = n as u64;
    let mut acc: u64 = 0;
    let mut i: usize = 0;
    while i < n
        invariant
            n == cells@.len() <= 4096,
            nn == n,
            sum == seq_sum(cells@),
            0 <= sum <= 255 * n,
            0 <= i <= n,
            acc == ssd_prefix(cells@, n as int, sum as int, i as int),
            acc <= 65025 * ((n * n) * i),
        decreases n - i,
    {
        proof {
            assert((n as int) * (cells@[i as int] as int) <= 4096 * 255) by (nonlinear_arith)
                requires
                    0 <= n <= 4096,
                    0 <= cells@[i as int] <= 255,
            ;
        }
        let cv: u64 = nn * (cells[i] as u64);
        let d: u64 = if cv >= sum {
            cv - sum
        } else {
            sum - cv
        };
        proof {
            assert(d <= 255 * n) by (nonlinear_arith)
                requires
                    d == (if nn * cells@[i as int] >= sum {
                        nn * cells@[i as int] - sum
                    } else {
                        sum + (-1) * (nn * cells@[i as int])
                    }),
                    nn == n,
                    0 <= cells@[i as int] <= 255,
                    0 <= sum <= 255 * n,
                    0 <= n,
            ;
            assert(d * d == spec_sq(n as int * cells@[i as int] - sum)) by (nonlinear_arith)
                requires
                    d == (if (n as int) * cells@[i as int] >= sum {
                        (n as int) * cells@[i as int] - sum
                    } else {
                        sum + (-1) * ((n as int) * cells@[i as int])
                    }),
            ;
            assert(d * d <= 65025 * (n * n)) by (nonlinear_arith)
                requires
                    0 <= d <= 255 * n,
                    0 <= n,
            ;
            assert(65025 * ((n * n) * i) + 65025 * (n * n) == 65025 * ((n * n) * (i + 1))
                && 65025 * ((n * n) * (i + 1)) <= 65025 * ((4096 * 4096) * 4096))
                by (nonlinear_arith)
                requires
                    0 <= i < n <= 4096,
            ;
        }
        acc = acc + d * d;
        i = i + 1;
    }
    acc
}

} // verus!
