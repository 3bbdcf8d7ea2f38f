//! Row-major pixel grids: how a flat index splits into a column and a row,
//! and where the four direct neighbours of a pixel lie.
use vstd::prelude::*;
use vstd::arithmetic::div_mod::{
    lemma_fundamental_div_mod,
    lemma_fundamental_div_mod_converse,
    lemma_mod_pos_bound,
};

verus! {

/// The pixel at column `x`, row `y` of a grid `w` pixels wide sits at `y * w + x`.
pub proof fn lemma_index_of(x: int, y: int, w: int, h: int)
    requires
        0 <= x < w,
        0 <= y < h,
    ensures
        0 <= y * w + x < w * h,
        (y * w + x) % w == x,
        (y * w + x) / w == y,
        y * w <= w * h,
{
    assert(0 <= y * w + x < w * h) by (nonlinear_arith)
        requires 0 <= x < w, 0 <= y < h;
    assert(y * w <= w * h) by (nonlinear_arith)
        requires 0 <= x < w, 0 <= y < h;
    lemma_fundamental_div_mod_converse(y * w + x, w, y, x);
}

/// A flat index inside a `w` by `h` grid splits into a column and a row inside
/// the grid, and its direct neighbours keep the expected coordinates.
pub proof fn lemma_grid_index(i: int, w: int, h: int)
    requires
        w > 0,
        h > 0,
        0 <= i < w * h,
    ensures
        i == (i / w) * w + i % w,
        0 <= i % w < w,
        0 <= i / w < h,
        i % w > 0 ==> (i - 1) % w == i % w - 1 && (i - 1) / w == i / w,
        i % w + 1 < w ==> (i + 1) % w == i % w + 1 && (i + 1) / w == i / w && i + 1 < w * h,
        i / w > 0 ==> (i - w) % w == i % w && (i - w) / w == i / w - 1 && 0 <= i - w,
        i / w + 1 < h ==> (i + w) % w == i % w && (i + w) / w == i / w + 1 && i + w < w * h,
{
    lemma_fundamental_div_mod(i, w);
    lemma_mod_pos_bound(i, w);
    let x = i % w;
    let y = i / w;
    assert(i == y * w + x) by (nonlinear_arith)
        requires i == w * (i / w) + (i % w), x == i % w, y == i / w;
    assert(0 <= y) by (nonlinear_arith)
        requires i == y * w + x, 0 <= x < w, 0 <= i;
    assert(y < h) by (nonlinear_arith)
        requires i == y * w + x, 0 <= x < w, i < w * h, 0 <= y;
    if x > 0 {
        lemma_fundamental_div_mod_converse(i - 1, w, y, x - 1);
    }
    if x + 1 < w {
        lemma_fundamental_div_mod_converse(i + 1, w, y, x + 1);
        lemma_index_of(x + 1, y, w, h);
    }
    if y > 0 {
        assert(i - w == (y - 1) * w + x) by (nonlinear_arith)
            requires i == y * w + x;
        lemma_fundamental_div_mod_converse(i - w, w, y - 1, x);
        lemma_index_of(x, y - 1, w, h);
    }
    if y + 1 < h {
        assert(i + w == (y + 1) * w + x) by (nonlinear_arith)
            requires i == y * w + x;
        lemma_fundamental_div_mod_converse(i + w, w, y + 1, x);
        lemma_index_of(x, y + 1, w, h);
    }
}

} // verus!
