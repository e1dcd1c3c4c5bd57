use vstd::prelude::*;

verus! {

/// `num / den` rounded to the nearest integer (half rounds up).
pub open spec fn spec_round_div(num: int, den: int) -> int {
    (2 * num + den) / (2 * den)
}

/// A rounded quotient stays under any cap that the exact quotient obeys.
proof fn lemma_round_div_le(num: int, den: int, cap: int)
    requires
        0 < den,
        0 <= num,
        num <= cap * den,
    ensures
        0 <= spec_round_div(num, den) <= cap,
{
    vstd::arithmetic::div_mod::lemma_fundamental_div_mod(2 * num + den, 2 * den);
    vstd::arithmetic::div_mod::lemma_mod_bound(2 * num + den, 2 * den);
    assert(0 <= (2 * num + den) / (2 * den) <= cap) by (nonlinear_arith)
        requires
            0 < den,
            0 <= num,
            num <= cap * den,
            2 * num + den == (2 * den) * ((2 * num + den) / (2 * den)) + (2 * num + den) % (2
                * den),
            0 <= (2 * num + den) % (2 * den) < 2 * den,
    ;
}

/// The box that `(dw, dh)` fills when scaled uniformly by
/// `min(bw / dw, bh / dh)`: the limiting direction takes the box edge
/// exactly, the other is rounded from the same scale, and both edges are
/// kept at least 1. The scale may exceed 1.
pub open spec fn spec_fit_box(dw: int, dh: int, bw: int, bh: int) -> (int, int) {
    if bw * dh <= bh * dw {
        let th = spec_round_div(dh * bw, dw);
        (bw, if th < 1 {
            1
        } else {
            th
        })
    } else {
        let tw = spec_round_div(dw * bh, dh);
        (if tw < 1 {
            1
        } else {
            tw
        }, bh)
    }
}

/// A fitted box always lies inside the requested box, with both edges
/// at least 1.
pub proof fn lemma_fit_box_bounds(dw: int, dh: int, bw: int, bh: int)
    requires
        1 <= dw,
        1 <= dh,
        1 <= bw,
        1 <= bh,
    ensures
        1 <= spec_fit_box(dw, dh, bw, bh).0 <= bw,
        1 <= spec_fit_box(dw, dh, bw, bh).1 <= bh,
{
    if bw * dh <= bh * dw {
        assert(dh * bw <= bh * dw) by (nonlinear_arith)
            requires
                bw * dh <= bh * dw,
        ;
        lemma_round_div_le(dh * bw, dw, bh);
    } else {
        assert(dw * bh <= bw * dh) by (nonlinear_arith)
            requires
                bh * dw <= bw * dh,
        ;
        lemma_round_div_le(dw * bh, dh, bw);
    }
}

/// Uniform fit of a document of size `(dw, dh)` into the box
/// `(bw, bh)`, as executable code.
pub fn fit_box(dw: u32, dh: u32, bw: u32, bh: u32) -> (r: (u32, u32))
    requires
        1 <= dw,
        1 <= dh,
        1 <= bw <= 4096,
        1 <= bh <= 4096,
    ensures
        (r.0 as int, r.1 as int) == spec_fit_box(dw as int, dh as int, bw as int, bh as int),
        1 <= r.0 <= bw,
        1 <= r.1 <= bh,
{
    let dw64: u64 = dw as u64;
    let dh64: u64 = dh as u64;
    let bw64: u64 = bw as u64;
    let bh64: u64 = bh as u64;
    proof {
        assert(bw64 * dh64 <= 4096 * 0xffff_ffff && bh64 * dw64 <= 4096 * 0xffff_ffff)
            by (nonlinear_arith)
            requires
                0 <= bw64 <= 4096,
                0 <= bh64 <= 4096,
                0 <= dw64 <= 0xffff_ffff,
                0 <= dh64 <= 0xffff_ffff,
        ;
    }
    if bw64 * dh64 <= bh64 * dw64 {
        proof {
            assert(dh64 * bw64 <= bh64 * dw64) by (nonlinear_arith)
                requires
                    bw64 * dh64 <= bh64 * dw64,
            ;
            lemma_round_div_le(dh64 * bw64 as int, dw64 as int, bh64 as int);
            assert(dh64 * bw64 <= 0xffff_ffff * 4096) by (nonlinear_arith)
                requires
                    dh64 <= 0xffff_ffff,
                    bw64 <= 4096,
                    0 <= dh64,
                    0 <= bw64,
            ;
        }
        let th: u64 = (2 * (dh64 * bw64) + dw64) / (2 * dw64);
        let th1: u64 = if th < 1 {
            1
        } else {
            th
        };
        (bw, th1 as u32)
    } else {
        proof {
            assert(dw64 * bh64 <= bw64 * dh64) by (nonlinear_arith)
                requires
                    bh64 * dw64 <= bw64 * dh64,
            ;
            lemma_round_div_le(dw64 * bh64 as int, dh64 as int, bw64 as int);
            assert(dw64 * bh64 <= 0xffff_ffff * 4096) by (nonlinear_arith)
                requires
                    dw64 <= 0xffff_ffff,
                    bh64 <= 4096,
                    0 <= dw64,
                    0 <= bh64,
            ;
        }
        let tw: u64 = (2 * (dw64 * bh64) + dh64) / (2 * dh64);
        let tw1: u64 = if tw < 1 {
            1
        } else {
            tw
        };
        (tw1 as u32, bh)
    }
}

/// The larger of two values.
pub open spec fn spec_max(a: int, b: int) -> int {
    if a >= b {
        a
    } else {
        b
    }
}

/// The box that `(dw, dh)` fills inside a square icon canvas whose free
/// inner edge is `inner`: the document is never scaled up, so a small
/// document keeps its own size; a large one is scaled uniformly by
/// `inner / max(dw, dh)`, rounded, and kept at least 1 per edge.
pub open spec fn spec_fit_icon(dw: int, dh: int, inner: int) -> (int, int) {
    if dw <= inner && dh <= inner {
        (dw, dh)
    } else {
        let m = spec_max(dw, dh);
        let tw = spec_round_div(dw * inner, m);
        let th = spec_round_div(dh * inner, m);
        (
            if tw < 1 {
                1
            } else {
                tw
            },
            if th < 1 {
                1
            } else {
                th
            },
        )
    }
}

/// Fit of a document into a square icon canvas, as executable code;
/// the scale is clamped at 1 so the document is never enlarged.
pub fn fit_icon(dw: u32, dh: u32, inner: u32) -> (r: (u32, u32))
    requires
        1 <= dw,
        1 <= dh,
        1 <= inner <= 4096,
    ensures
        (r.0 as int, r.1 as int) == spec_fit_icon(dw as int, dh as int, inner as int),
        1 <= r.0 <= inner,
        1 <= r.1 <= inner,
{
    if dw <= inner && dh <= inner {
        (dw, dh)
    } else {
        let m: u64 = if dw >= dh {
            dw as u64
        } else {
            dh as u64
        };
        proof {
            assert((dw as int) * (inner as int) <= (inner as int) * (m as int) && (dh as int) * (
            inner as int) <= (inner as int) * (m as int)) by (nonlinear_arith)
                requires
                    dw <= m,
                    dh <= m,
                    0 <= inner,
            ;
            lemma_round_div_le((dw as int) * (inner as int), m as int, inner as int);
            lemma_round_div_le((dh as int) * (inner as int), m as int, inner as int);
            assert((dw as u64) * (inner as u64) <= 0xffff_ffff * 4096 && (dh as u64) * (inner
                as u64) <= 0xffff_ffff * 4096) by (nonlinear_arith)
                requires
                    dw <= 0xffff_ffffu32,
                    dh <= 0xffff_ffffu32,
                    inner <= 4096,
                    0 <= inner,
            ;
        }
        let tw: u64 = (2 * ((dw as u64) * (inner as u64)) + m) / (2 * m);
        let th: u64 = (2 * ((dh as u64) * (inner as u64)) + m) / (2 * m);
        let tw1: u64 = if tw < 1 {
            1
        } else {
            tw
        };
        let th1: u64 = if th < 1 {
            1
        } else {
            th
        };
        (tw1 as u32, th1 as u32)
    }
}

} // verus!
