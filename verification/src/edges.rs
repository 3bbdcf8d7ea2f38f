//! Inner-contour detection on a grayscale frame.
//!
//! A pixel is an edge pixel when it is brighter than the darkest pixel of its
//! clipped 3x3 neighbourhood by more than the threshold; the strength is four
//! times the excess, saturated at 255. The contour is then widened: each pass
//! lets a pixel take the strongest edge of a direct neighbour that is not
//! brighter than the pixel itself, so contours grow only inward, never onto
//! the darker side.
use vstd::prelude::*;
use crate::grid::{lemma_grid_index, lemma_index_of};

verus! {

pub open spec fn min_u8(a: u8, b: u8) -> u8 {
    if a <= b { a } else { b }
}

pub open spec fn max_u8(a: u8, b: u8) -> u8 {
    if a >= b { a } else { b }
}

pub open spec fn sat_sub_u8(a: u8, b: u8) -> u8 {
    if a >= b { (a - b) as u8 } else { 0 }
}

pub open spec fn sat_mul4_u8(a: u8) -> u8 {
    if a * 4 <= 255 { (a * 4) as u8 } else { 255 }
}

/// Minimum of pixel `i` and its left and right neighbours in the same row.
pub open spec fn row_min(g: Seq<u8>, w: int, i: int) -> u8 {
    let x = i % w;
    let c = g[i];
    let left = if x > 0 { min_u8(c, g[i - 1]) } else { c };
    if x + 1 < w { min_u8(left, g[i + 1]) } else { left }
}

/// Minimum over the 3x3 block around pixel `i`, clipped at the grid border.
pub open spec fn block_min(g: Seq<u8>, w: int, h: int, i: int) -> u8 {
    let y = i / w;
    let m = row_min(g, w, i);
    let up = if y > 0 { min_u8(m, row_min(g, w, i - w)) } else { m };
    if y + 1 < h { min_u8(up, row_min(g, w, i + w)) } else { up }
}

/// The threshold actually used: never below 4.
pub open spec fn effective_threshold(threshold: u8) -> u8 {
    if threshold >= 4 { threshold } else { 4 }
}

/// Edge strength of pixel `i` before any widening.
pub open spec fn edge_strength(g: Seq<u8>, w: int, h: int, threshold: u8, i: int) -> u8 {
    sat_mul4_u8(
        sat_sub_u8(sat_sub_u8(g[i], block_min(g, w, h, i)), effective_threshold(threshold)),
    )
}

pub open spec fn initial_edges(g: Seq<u8>, w: int, h: int, threshold: u8) -> Seq<u8> {
    Seq::new(g.len(), |i: int| if i < w * h { edge_strength(g, w, h, threshold, i) } else { 0u8 })
}

/// One widening step at pixel `i`: the strongest edge among the pixel and those
/// of its four direct neighbours that are not brighter than it.
pub open spec fn spread_at(g: Seq<u8>, w: int, h: int, e: Seq<u8>, i: int) -> u8 {
    let x = i % w;
    let y = i / w;
    let v0 = e[i];
    let v1 = if y > 0 && g[i] >= g[i - w] { max_u8(v0, e[i - w]) } else { v0 };
    let v2 = if y + 1 < h && g[i] >= g[i + w] { max_u8(v1, e[i + w]) } else { v1 };
    let v3 = if x > 0 && g[i] >= g[i - 1] { max_u8(v2, e[i - 1]) } else { v2 };
    if x + 1 < w && g[i] >= g[i + 1] { max_u8(v3, e[i + 1]) } else { v3 }
}

pub open spec fn spread(g: Seq<u8>, w: int, h: int, e: Seq<u8>) -> Seq<u8> {
    Seq::new(e.len(), |i: int| if i < w * h { spread_at(g, w, h, e, i) } else { 0u8 })
}

/// Edges after `n` widening passes.
pub open spec fn edges_after(g: Seq<u8>, w: int, h: int, threshold: u8, n: nat) -> Seq<u8>
    decreases n,
{
    if n == 0 {
        initial_edges(g, w, h, threshold)
    } else {
        spread(g, w, h, edges_after(g, w, h, threshold, (n - 1) as nat))
    }
}

/// The contour width is clamped to 1..=4 pixels; width `k` takes `k - 1` passes.
pub open spec fn spread_passes(thickness: u8) -> nat {
    if thickness <= 1 { 0 } else if thickness >= 4 { 3 } else { (thickness - 1) as nat }
}

/// The inner-contour intensity of every pixel of a `w` by `h` grayscale frame.
pub open spec fn spec_inner_edges(g: Seq<u8>, w: int, h: int, threshold: u8, thickness: u8) -> Seq<u8> {
    if w == 0 || h == 0 || g.len() == 0 {
        Seq::new(g.len(), |i: int| 0u8)
    } else {
        edges_after(g, w, h, threshold, spread_passes(thickness))
    }
}


/// Pixel `j + dx` of the same row, as seen from pixel `j`.
pub open spec fn row_neighbour(g: Seq<u8>, j: int, dx: int) -> u8 {
    g[j + dx]
}

/// Whether the offset `(dx, dy)` stays inside the 3x3 block around pixel `i`
/// and inside the `w` by `h` grid.
pub open spec fn in_block(w: int, h: int, i: int, dx: int, dy: int) -> bool {
    &&& -1 <= dx <= 1
    &&& -1 <= dy <= 1
    &&& 0 <= i % w + dx < w
    &&& 0 <= i / w + dy < h
}

/// The pixel at offset `(dx, dy)` from pixel `i`.
pub open spec fn neighbour(g: Seq<u8>, w: int, i: int, dx: int, dy: int) -> u8 {
    g[i + dy * w + dx]
}

proof fn lemma_edges_after_len(g: Seq<u8>, w: int, h: int, threshold: u8, n: nat)
    ensures
        edges_after(g, w, h, threshold, n).len() == g.len(),
    decreases n,
{
    if n > 0 {
        lemma_edges_after_len(g, w, h, threshold, (n - 1) as nat);
    }
}

proof fn lemma_row_min_bounds(g: Seq<u8>, w: int, h: int, j: int)
    requires
        w > 0,
        h > 0,
        0 <= j < w * h,
        w * h <= g.len(),
    ensures
        forall|dx: int|
            -1 <= dx <= 1 && 0 <= j % w + dx < w ==> row_min(g, w, j) <= #[trigger] row_neighbour(g, j, dx),
        exists|dx: int|
            -1 <= dx <= 1 && 0 <= j % w + dx < w && row_min(g, w, j) == #[trigger] row_neighbour(g, j, dx),
{
    lemma_grid_index(j, w, h);
    let x = j % w;
    let m = row_min(g, w, j);
    assert(row_neighbour(g, j, 0) == g[j]);
    if x > 0 {
        assert(row_neighbour(g, j, -1) == g[j - 1]);
    }
    if x + 1 < w {
        assert(row_neighbour(g, j, 1) == g[j + 1]);
    }
    if m == g[j] {
        assert(row_min(g, w, j) == row_neighbour(g, j, 0));
    } else if x > 0 && m == g[j - 1] {
        assert(row_min(g, w, j) == row_neighbour(g, j, -1));
    } else {
        assert(row_min(g, w, j) == row_neighbour(g, j, 1));
    }
}

/// The separable minimum equals the minimum over the clipped 3x3 block: it is
/// no larger than any pixel of the block and equal to one of them.
pub proof fn lemma_block_min_is_neighbourhood_minimum(g: Seq<u8>, w: int, h: int, i: int)
    requires
        w > 0,
        h > 0,
        0 <= i < w * h,
        w * h <= g.len(),
    ensures
        forall|dx: int, dy: int|
            in_block(w, h, i, dx, dy) ==> block_min(g, w, h, i) <= #[trigger] neighbour(g, w, i, dx, dy),
        exists|dx: int, dy: int|
            in_block(w, h, i, dx, dy) && block_min(g, w, h, i) == #[trigger] neighbour(g, w, i, dx, dy),
{
    lemma_grid_index(i, w, h);
    let y = i / w;
    lemma_row_min_bounds(g, w, h, i);
    if y > 0 {
        lemma_row_min_bounds(g, w, h, i - w);
    }
    if y + 1 < h {
        lemma_row_min_bounds(g, w, h, i + w);
    }
    assert forall|dx: int, dy: int| in_block(w, h, i, dx, dy) implies block_min(g, w, h, i)
        <= #[trigger] neighbour(g, w, i, dx, dy) by {
        if dy == 0 {
            assert(i + dy * w + dx == i + dx);
            assert(row_min(g, w, i) <= row_neighbour(g, i, dx));
        } else if dy == -1 {
            assert(i + dy * w + dx == (i - w) + dx);
            assert(row_min(g, w, i - w) <= row_neighbour(g, i - w, dx));
        } else {
            assert(i + dy * w + dx == (i + w) + dx);
            assert(row_min(g, w, i + w) <= row_neighbour(g, i + w, dx));
        }
    }
    let b = block_min(g, w, h, i);
    if b == row_min(g, w, i) {
        let dx = choose|dx: int|
            -1 <= dx <= 1 && 0 <= i % w + dx < w && row_min(g, w, i) == #[trigger] row_neighbour(g, i, dx);
        assert(i + 0 * w + dx == i + dx);
        assert(in_block(w, h, i, dx, 0) && b == neighbour(g, w, i, dx, 0));
    } else if y > 0 && b == row_min(g, w, i - w) {
        let dx = choose|dx: int|
            -1 <= dx <= 1 && 0 <= (i - w) % w + dx < w && row_min(g, w, i - w) == #[trigger] row_neighbour(g, i - w, dx);
        assert(i + (-1) * w + dx == (i - w) + dx);
        assert(in_block(w, h, i, dx, -1) && b == neighbour(g, w, i, dx, -1));
    } else {
        let dx = choose|dx: int|
            -1 <= dx <= 1 && 0 <= (i + w) % w + dx < w && row_min(g, w, i + w) == #[trigger] row_neighbour(g, i + w, dx);
        assert(i + 1 * w + dx == (i + w) + dx);
        assert(in_block(w, h, i, dx, 1) && b == neighbour(g, w, i, dx, 1));
    }
}

proof fn lemma_uniform_edges_after(g: Seq<u8>, w: int, h: int, threshold: u8, c: u8, n: nat)
    requires
        w > 0,
        h > 0,
        w * h <= g.len(),
        forall|j: int| 0 <= j < w * h ==> #[trigger] g[j] == c,
    ensures
        forall|j: int| 0 <= j < g.len() ==> #[trigger] edges_after(g, w, h, threshold, n)[j] == 0,
    decreases n,
{
    lemma_edges_after_len(g, w, h, threshold, n);
    if n == 0 {
        assert forall|j: int| 0 <= j < g.len() implies #[trigger] edges_after(g, w, h, threshold, n)[j] == 0 by {
            if j < w * h {
                lemma_grid_index(j, w, h);
                if j % w + 1 < w {
                    lemma_grid_index(j + 1, w, h);
                }
                if j / w > 0 {
                    lemma_grid_index(j - w, w, h);
                    if (j - w) % w + 1 < w {
                        assert(g[j - w + 1] == c);
                    }
                    if (j - w) % w > 0 {
                        assert(g[j - w - 1] == c);
                    }
                }
                if j / w + 1 < h {
                    lemma_grid_index(j + w, w, h);
                    if (j + w) % w + 1 < w {
                        assert(g[j + w + 1] == c);
                    }
                    if (j + w) % w > 0 {
                        assert(g[j + w - 1] == c);
                    }
                }
                assert(block_min(g, w, h, j) == c);
            }
        }
    } else {
        let prev = edges_after(g, w, h, threshold, (n - 1) as nat);
        lemma_uniform_edges_after(g, w, h, threshold, c, (n - 1) as nat);
        lemma_edges_after_len(g, w, h, threshold, (n - 1) as nat);
        assert forall|j: int| 0 <= j < g.len() implies #[trigger] edges_after(g, w, h, threshold, n)[j] == 0 by {
            if j < w * h {
                lemma_grid_index(j, w, h);
                assert(prev[j] == 0);
                if j / w > 0 {
                    assert(prev[j - w] == 0);
                }
                if j / w + 1 < h {
                    assert(prev[j + w] == 0);
                }
                if j % w > 0 {
                    assert(prev[j - 1] == 0);
                }
                if j % w + 1 < w {
                    assert(prev[j + 1] == 0);
                }
            }
        }
    }
}

/// A frame of one uniform brightness has no contour anywhere.
pub proof fn lemma_uniform_frame_has_no_edges(
    g: Seq<u8>,
    w: int,
    h: int,
    threshold: u8,
    thickness: u8,
    c: u8,
)
    requires
        w >= 0,
        h >= 0,
        w == 0 || h == 0 || g.len() == 0 || w * h <= g.len(),
        forall|j: int| 0 <= j < w * h && j < g.len() ==> #[trigger] g[j] == c,
    ensures
        spec_inner_edges(g, w, h, threshold, thickness).len() == g.len(),
        forall|j: int| 0 <= j < g.len() ==> #[trigger] spec_inner_edges(g, w, h, threshold, thickness)[j] == 0,
{
    if w == 0 || h == 0 || g.len() == 0 {
    } else {
        lemma_edges_after_len(g, w, h, threshold, spread_passes(thickness));
        lemma_uniform_edges_after(g, w, h, threshold, c, spread_passes(thickness));
    }
}

proof fn lemma_dark_edges_after(g: Seq<u8>, w: int, h: int, threshold: u8, n: nat)
    requires
        w > 0,
        h > 0,
        w * h <= g.len(),
    ensures
        forall|j: int| 0 <= j < g.len() && g[j] == 0 ==> #[trigger] edges_after(g, w, h, threshold, n)[j] == 0,
    decreases n,
{
    lemma_edges_after_len(g, w, h, threshold, n);
    if n > 0 {
        let prev = edges_after(g, w, h, threshold, (n - 1) as nat);
        lemma_dark_edges_after(g, w, h, threshold, (n - 1) as nat);
        lemma_edges_after_len(g, w, h, threshold, (n - 1) as nat);
        assert forall|j: int| 0 <= j < g.len() && g[j] == 0 implies #[trigger] edges_after(g, w, h, threshold, n)[j] == 0 by {
            if j < w * h {
                lemma_grid_index(j, w, h);
                assert(prev[j] == 0);
                if j / w > 0 && g[j] >= g[j - w] {
                    assert(prev[j - w] == 0);
                }
                if j / w + 1 < h && g[j] >= g[j + w] {
                    assert(prev[j + w] == 0);
                }
                if j % w > 0 && g[j] >= g[j - 1] {
                    assert(prev[j - 1] == 0);
                }
                if j % w + 1 < w && g[j] >= g[j + 1] {
                    assert(prev[j + 1] == 0);
                }
            }
        }
    }
}

/// Contours grow only inward: a black pixel is never lit, whatever the
/// threshold and the contour width.
pub proof fn lemma_dark_pixels_stay_dark(g: Seq<u8>, w: int, h: int, threshold: u8, thickness: u8, i: int)
    requires
        w >= 0,
        h >= 0,
        w == 0 || h == 0 || g.len() == 0 || w * h <= g.len(),
        0 <= i < g.len(),
        g[i] == 0,
    ensures
        spec_inner_edges(g, w, h, threshold, thickness)[i] == 0,
{
    if w == 0 || h == 0 || g.len() == 0 {
    } else {
        lemma_dark_edges_after(g, w, h, threshold, spread_passes(thickness));
    }
}

/// Edges after `n` widening passes applied to the intensities `e`.
pub open spec fn widen(g: Seq<u8>, w: int, h: int, e: Seq<u8>, n: nat) -> Seq<u8>
    decreases n,
{
    if n == 0 {
        e
    } else {
        spread(g, w, h, widen(g, w, h, e, (n - 1) as nat))
    }
}

/// One step of a direct scan of the clipped 3x3 window around pixel `i`: the
/// running minimum `m`, lowered to the pixel at offset `(dx, dy)` when that
/// pixel lies inside the grid.
pub open spec fn window_take(g: Seq<u8>, w: int, h: int, i: int, m: u8, dx: int, dy: int) -> u8 {
    if in_block(w, h, i, dx, dy) { min_u8(m, neighbour(g, w, i, dx, dy)) } else { m }
}

/// Minimum of the clipped 3x3 window around pixel `i`, found by starting from
/// the pixel itself and visiting the window row by row.
pub open spec fn window_min(g: Seq<u8>, w: int, h: int, i: int) -> u8 {
    let m0 = g[i];
    let m1 = window_take(g, w, h, i, m0, -1, -1);
    let m2 = window_take(g, w, h, i, m1, 0, -1);
    let m3 = window_take(g, w, h, i, m2, 1, -1);
    let m4 = window_take(g, w, h, i, m3, -1, 0);
    let m5 = window_take(g, w, h, i, m4, 0, 0);
    let m6 = window_take(g, w, h, i, m5, 1, 0);
    let m7 = window_take(g, w, h, i, m6, -1, 1);
    let m8 = window_take(g, w, h, i, m7, 0, 1);
    window_take(g, w, h, i, m8, 1, 1)
}

/// The number of widening passes of a direct implementation: the contour
/// width clamped to 1..=4, less one.
pub open spec fn clamped_passes(thickness: u8) -> nat {
    let width: int = if thickness < 1 { 1 } else if thickness > 4 { 4 } else { thickness as int };
    (width - 1) as nat
}

/// Inner-contour intensities computed directly: the minimum of each pixel's
/// clipped 3x3 window taken pixel by pixel, then the widening passes, each
/// reading a snapshot of the previous pass.
pub open spec fn reference_inner_edges(g: Seq<u8>, w: int, h: int, threshold: u8, thickness: u8) -> Seq<u8> {
    let initial = Seq::new(
        g.len(),
        |i: int|
            if i < w * h {
                sat_mul4_u8(sat_sub_u8(sat_sub_u8(g[i], window_min(g, w, h, i)), max_u8(threshold, 4)))
            } else {
                0u8
            },
    );
    widen(g, w, h, initial, clamped_passes(thickness))
}

/// Whether `m` is the value of some pixel of the clipped 3x3 window around `i`.
pub open spec fn attained(g: Seq<u8>, w: int, h: int, i: int, m: u8) -> bool {
    exists|dx: int, dy: int| in_block(w, h, i, dx, dy) && m == #[trigger] neighbour(g, w, i, dx, dy)
}

proof fn lemma_window_take(g: Seq<u8>, w: int, h: int, i: int, m: u8, dx: int, dy: int)
    requires
        attained(g, w, h, i, m),
    ensures
        attained(g, w, h, i, window_take(g, w, h, i, m, dx, dy)),
        window_take(g, w, h, i, m, dx, dy) <= m,
        in_block(w, h, i, dx, dy) ==> window_take(g, w, h, i, m, dx, dy) <= neighbour(g, w, i, dx, dy),
{
    if in_block(w, h, i, dx, dy) && neighbour(g, w, i, dx, dy) < m {
        assert(window_take(g, w, h, i, m, dx, dy) == neighbour(g, w, i, dx, dy));
    }
}

/// The direct window scan finds the minimum of the clipped 3x3 window: it is
/// no larger than any pixel of the window and equal to one of them.
pub proof fn lemma_window_min_is_neighbourhood_minimum(g: Seq<u8>, w: int, h: int, i: int)
    requires
        w > 0,
        h > 0,
        0 <= i < w * h,
        w * h <= g.len(),
    ensures
        forall|dx: int, dy: int|
            in_block(w, h, i, dx, dy) ==> window_min(g, w, h, i) <= #[trigger] neighbour(g, w, i, dx, dy),
        attained(g, w, h, i, window_min(g, w, h, i)),
{
    lemma_grid_index(i, w, h);
    let m0 = g[i];
    assert(i + 0 * w + 0 == i);
    assert(in_block(w, h, i, 0, 0) && m0 == neighbour(g, w, i, 0, 0));
    let m1 = window_take(g, w, h, i, m0, -1, -1);
    lemma_window_take(g, w, h, i, m0, -1, -1);
    let m2 = window_take(g, w, h, i, m1, 0, -1);
    lemma_window_take(g, w, h, i, m1, 0, -1);
    let m3 = window_take(g, w, h, i, m2, 1, -1);
    lemma_window_take(g, w, h, i, m2, 1, -1);
    let m4 = window_take(g, w, h, i, m3, -1, 0);
    lemma_window_take(g, w, h, i, m3, -1, 0);
    let m5 = window_take(g, w, h, i, m4, 0, 0);
    lemma_window_take(g, w, h, i, m4, 0, 0);
    let m6 = window_take(g, w, h, i, m5, 1, 0);
    lemma_window_take(g, w, h, i, m5, 1, 0);
    let m7 = window_take(g, w, h, i, m6, -1, 1);
    lemma_window_take(g, w, h, i, m6, -1, 1);
    let m8 = window_take(g, w, h, i, m7, 0, 1);
    lemma_window_take(g, w, h, i, m7, 0, 1);
    lemma_window_take(g, w, h, i, m8, 1, 1);
    assert forall|dx: int, dy: int| in_block(w, h, i, dx, dy) implies window_min(g, w, h, i)
        <= #[trigger] neighbour(g, w, i, dx, dy) by {
        if dy == -1 {
            if dx == -1 {
            } else if dx == 0 {
            } else {
            }
        } else if dy == 0 {
            if dx == -1 {
            } else if dx == 0 {
            } else {
            }
        } else {
            if dx == -1 {
            } else if dx == 0 {
            } else {
            }
        }
    }
}

/// The separable minimum and the direct window scan give the same value.
pub proof fn lemma_block_min_equals_window_min(g: Seq<u8>, w: int, h: int, i: int)
    requires
        w > 0,
        h > 0,
        0 <= i < w * h,
        w * h <= g.len(),
    ensures
        block_min(g, w, h, i) == window_min(g, w, h, i),
{
    lemma_block_min_is_neighbourhood_minimum(g, w, h, i);
    lemma_window_min_is_neighbourhood_minimum(g, w, h, i);
    let b = block_min(g, w, h, i);
    let m = window_min(g, w, h, i);
    let (bx, by) = choose|dx: int, dy: int| in_block(w, h, i, dx, dy) && b == #[trigger] neighbour(g, w, i, dx, dy);
    let (mx, my) = choose|dx: int, dy: int| in_block(w, h, i, dx, dy) && m == #[trigger] neighbour(g, w, i, dx, dy);
    assert(b <= neighbour(g, w, i, mx, my));
    assert(m <= neighbour(g, w, i, bx, by));
}

proof fn lemma_edges_after_is_widen(g: Seq<u8>, w: int, h: int, threshold: u8, n: nat)
    ensures
        edges_after(g, w, h, threshold, n) == widen(g, w, h, initial_edges(g, w, h, threshold), n),
    decreases n,
{
    if n > 0 {
        lemma_edges_after_is_widen(g, w, h, threshold, (n - 1) as nat);
    }
}

proof fn lemma_widen_len(g: Seq<u8>, w: int, h: int, e: Seq<u8>, n: nat)
    ensures
        widen(g, w, h, e, n).len() == e.len(),
    decreases n,
{
    if n > 0 {
        lemma_widen_len(g, w, h, e, (n - 1) as nat);
    }
}

/// The separable implementation agrees with the direct one: the minimum of
/// each clipped 3x3 window taken pixel by pixel, the threshold floor of 4, and
/// the clamped number of widening passes.
pub proof fn lemma_inner_edges_match_reference(g: Seq<u8>, w: int, h: int, threshold: u8, thickness: u8)
    requires
        w >= 0,
        h >= 0,
        w == 0 || h == 0 || g.len() == 0 || w * h <= g.len(),
    ensures
        spec_inner_edges(g, w, h, threshold, thickness) == reference_inner_edges(g, w, h, threshold, thickness),
{
    let initial = Seq::new(
        g.len(),
        |i: int|
            if i < w * h {
                sat_mul4_u8(sat_sub_u8(sat_sub_u8(g[i], window_min(g, w, h, i)), max_u8(threshold, 4)))
            } else {
                0u8
            },
    );
    let n = clamped_passes(thickness);
    assert(n == spread_passes(thickness));
    if w == 0 || h == 0 || g.len() == 0 {
        assert(w * h == 0 || g.len() == 0) by (nonlinear_arith)
            requires w == 0 || h == 0 || g.len() == 0;
        assert(initial =~= Seq::new(g.len(), |i: int| 0u8));
        lemma_widen_zero(g, w, h, initial, n);
        lemma_widen_len(g, w, h, initial, n);
        assert(reference_inner_edges(g, w, h, threshold, thickness) =~= Seq::new(g.len(), |i: int| 0u8));
    } else {
        assert forall|i: int| 0 <= i < g.len() implies #[trigger] initial[i] == initial_edges(g, w, h, threshold)[i] by {
            if i < w * h {
                lemma_block_min_equals_window_min(g, w, h, i);
            }
        }
        assert(initial =~= initial_edges(g, w, h, threshold));
        lemma_edges_after_is_widen(g, w, h, threshold, n);
    }
}

proof fn lemma_widen_zero(g: Seq<u8>, w: int, h: int, e: Seq<u8>, n: nat)
    requires
        w * h == 0 || e.len() == 0,
        forall|j: int| 0 <= j < e.len() ==> #[trigger] e[j] == 0,
    ensures
        forall|j: int| 0 <= j < e.len() ==> #[trigger] widen(g, w, h, e, n)[j] == 0,
    decreases n,
{
    lemma_widen_len(g, w, h, e, n);
    if n > 0 {
        lemma_widen_zero(g, w, h, e, (n - 1) as nat);
        lemma_widen_len(g, w, h, e, (n - 1) as nat);
    }
}

proof fn lemma_edges_after_outside(g: Seq<u8>, w: int, h: int, threshold: u8, n: nat)
    ensures
        forall|j: int| 0 <= j && w * h <= j < g.len() ==> #[trigger] edges_after(g, w, h, threshold, n)[j] == 0,
    decreases n,
{
    lemma_edges_after_len(g, w, h, threshold, n);
    if n > 0 {
        lemma_edges_after_len(g, w, h, threshold, (n - 1) as nat);
    }
}

proof fn lemma_edges_grow_per_pass(g: Seq<u8>, w: int, h: int, threshold: u8, n: nat)
    ensures
        forall|j: int| 0 <= j < g.len() ==> edges_after(g, w, h, threshold, n)[j]
            <= #[trigger] edges_after(g, w, h, threshold, n + 1)[j],
{
    lemma_edges_after_len(g, w, h, threshold, n);
    lemma_edges_after_len(g, w, h, threshold, n + 1);
    lemma_edges_after_outside(g, w, h, threshold, n);
    lemma_edges_after_outside(g, w, h, threshold, n + 1);
    let e = edges_after(g, w, h, threshold, n);
    assert(edges_after(g, w, h, threshold, n + 1) == spread(g, w, h, e));
    assert forall|j: int| 0 <= j < g.len() implies e[j] <= #[trigger] edges_after(g, w, h, threshold, n + 1)[j] by {
        if j < w * h {
            assert(spread(g, w, h, e)[j] == spread_at(g, w, h, e, j));
        }
    }
}

proof fn lemma_edges_grow(g: Seq<u8>, w: int, h: int, threshold: u8, n: nat, m: nat)
    requires
        n <= m,
    ensures
        forall|j: int| 0 <= j < g.len() ==> edges_after(g, w, h, threshold, n)[j]
            <= #[trigger] edges_after(g, w, h, threshold, m)[j],
    decreases m - n,
{
    if n < m {
        lemma_edges_grow(g, w, h, threshold, n, (m - 1) as nat);
        lemma_edges_grow_per_pass(g, w, h, threshold, (m - 1) as nat);
        assert forall|j: int| 0 <= j < g.len() implies edges_after(g, w, h, threshold, n)[j]
            <= #[trigger] edges_after(g, w, h, threshold, m)[j] by {
            assert(edges_after(g, w, h, threshold, n)[j] <= edges_after(g, w, h, threshold, (m - 1) as nat)[j]);
            assert(edges_after(g, w, h, threshold, (m - 1) as nat)[j] <= edges_after(g, w, h, threshold, ((m - 1) as nat + 1) as nat)[j]);
        }
    }
}

/// A wider contour never dims a pixel: raising the contour width can only
/// keep or raise each intensity.
pub proof fn lemma_wider_contour_never_dims(
    g: Seq<u8>,
    w: int,
    h: int,
    threshold: u8,
    thin: u8,
    thick: u8,
    i: int,
)
    requires
        w >= 0,
        h >= 0,
        w == 0 || h == 0 || g.len() == 0 || w * h <= g.len(),
        thin <= thick,
        0 <= i < g.len(),
    ensures
        spec_inner_edges(g, w, h, threshold, thin)[i] <= spec_inner_edges(g, w, h, threshold, thick)[i],
{
    if !(w == 0 || h == 0 || g.len() == 0) {
        lemma_edges_grow(g, w, h, threshold, spread_passes(thin), spread_passes(thick));
    }
}

/// The contour width is clamped to 1..=4: width 0 draws as width 1, and any
/// width above 4 draws as width 4.
pub proof fn lemma_contour_width_is_clamped(g: Seq<u8>, w: int, h: int, threshold: u8, thickness: u8)
    ensures
        spec_inner_edges(g, w, h, threshold, 0) == spec_inner_edges(g, w, h, threshold, 1),
        thickness >= 4 ==> spec_inner_edges(g, w, h, threshold, thickness) == spec_inner_edges(g, w, h, threshold, 4),
{
}

/// Thresholds below 4 act as 4.
pub proof fn lemma_threshold_floor(g: Seq<u8>, w: int, h: int, threshold: u8, thickness: u8)
    ensures
        spec_inner_edges(g, w, h, threshold, thickness)
            == spec_inner_edges(g, w, h, effective_threshold(threshold), thickness),
{
    let t = effective_threshold(threshold);
    assert(initial_edges(g, w, h, threshold) =~= initial_edges(g, w, h, t));
    lemma_edges_after_is_widen(g, w, h, threshold, spread_passes(thickness));
    lemma_edges_after_is_widen(g, w, h, t, spread_passes(thickness));
}

proof fn lemma_spread_monotone(g: Seq<u8>, w: int, h: int, e1: Seq<u8>, e2: Seq<u8>)
    requires
        w > 0,
        h > 0,
        w * h <= e1.len(),
        e1.len() == e2.len(),
        forall|j: int| 0 <= j < e1.len() ==> #[trigger] e1[j] <= e2[j],
    ensures
        forall|j: int| 0 <= j < e1.len() ==> #[trigger] spread(g, w, h, e1)[j] <= spread(g, w, h, e2)[j],
{
    assert forall|j: int| 0 <= j < e1.len() implies #[trigger] spread(g, w, h, e1)[j] <= spread(g, w, h, e2)[j] by {
        if j < w * h {
            lemma_grid_index(j, w, h);
            assert(e1[j] <= e2[j]);
            if j / w > 0 {
                assert(e1[j - w] <= e2[j - w]);
            }
            if j / w + 1 < h {
                assert(e1[j + w] <= e2[j + w]);
            }
            if j % w > 0 {
                assert(e1[j - 1] <= e2[j - 1]);
            }
            if j % w + 1 < w {
                assert(e1[j + 1] <= e2[j + 1]);
            }
        }
    }
}

proof fn lemma_widen_monotone(g: Seq<u8>, w: int, h: int, e1: Seq<u8>, e2: Seq<u8>, n: nat)
    requires
        w > 0,
        h > 0,
        w * h <= e1.len(),
        e1.len() == e2.len(),
        forall|j: int| 0 <= j < e1.len() ==> #[trigger] e1[j] <= e2[j],
    ensures
        forall|j: int| 0 <= j < e1.len() ==> #[trigger] widen(g, w, h, e1, n)[j] <= widen(g, w, h, e2, n)[j],
    decreases n,
{
    if n > 0 {
        let n1 = (n - 1) as nat;
        lemma_widen_monotone(g, w, h, e1, e2, n1);
        lemma_widen_len(g, w, h, e1, n1);
        lemma_widen_len(g, w, h, e2, n1);
        lemma_spread_monotone(g, w, h, widen(g, w, h, e1, n1), widen(g, w, h, e2, n1));
    }
}

/// A higher threshold never lights more: raising the threshold can only keep
/// or lower each intensity.
pub proof fn lemma_higher_threshold_never_brightens(
    g: Seq<u8>,
    w: int,
    h: int,
    low: u8,
    high: u8,
    thickness: u8,
    i: int,
)
    requires
        w >= 0,
        h >= 0,
        w == 0 || h == 0 || g.len() == 0 || w * h <= g.len(),
        low <= high,
        0 <= i < g.len(),
    ensures
        spec_inner_edges(g, w, h, high, thickness)[i] <= spec_inner_edges(g, w, h, low, thickness)[i],
{
    if !(w == 0 || h == 0 || g.len() == 0) {
        let n = spread_passes(thickness);
        let e_high = initial_edges(g, w, h, high);
        let e_low = initial_edges(g, w, h, low);
        assert forall|j: int| 0 <= j < e_high.len() implies #[trigger] e_high[j] <= e_low[j] by {
        }
        lemma_widen_monotone(g, w, h, e_high, e_low, n);
        lemma_edges_after_is_widen(g, w, h, high, n);
        lemma_edges_after_is_widen(g, w, h, low, n);
    }
}

proof fn lemma_shifted_row_min(g: Seq<u8>, s: Seq<u8>, w: int, h: int, c: u8, j: int)
    requires
        w > 0,
        h > 0,
        0 <= j < w * h,
        w * h <= g.len(),
        s.len() == g.len(),
        forall|k: int| 0 <= k < g.len() ==> #[trigger] s[k] == g[k] + c,
    ensures
        row_min(s, w, j) == row_min(g, w, j) + c,
{
    lemma_grid_index(j, w, h);
    assert(s[j] == g[j] + c);
    if j % w > 0 {
        assert(s[j - 1] == g[j - 1] + c);
    }
    if j % w + 1 < w {
        assert(s[j + 1] == g[j + 1] + c);
    }
}

proof fn lemma_shifted_spread(g: Seq<u8>, s: Seq<u8>, w: int, h: int, c: u8, e: Seq<u8>)
    requires
        w > 0,
        h > 0,
        w * h <= g.len(),
        s.len() == g.len(),
        forall|k: int| 0 <= k < g.len() ==> #[trigger] s[k] == g[k] + c,
    ensures
        spread(s, w, h, e) == spread(g, w, h, e),
{
    assert forall|j: int| 0 <= j < e.len() implies #[trigger] spread(s, w, h, e)[j] == spread(g, w, h, e)[j] by {
        if j < w * h {
            lemma_grid_index(j, w, h);
            assert(s[j] == g[j] + c);
            if j / w > 0 {
                assert(s[j - w] == g[j - w] + c);
            }
            if j / w + 1 < h {
                assert(s[j + w] == g[j + w] + c);
            }
            if j % w > 0 {
                assert(s[j - 1] == g[j - 1] + c);
            }
            if j % w + 1 < w {
                assert(s[j + 1] == g[j + 1] + c);
            }
        }
    }
    assert(spread(s, w, h, e) =~= spread(g, w, h, e));
}

proof fn lemma_shifted_widen(g: Seq<u8>, s: Seq<u8>, w: int, h: int, c: u8, e: Seq<u8>, n: nat)
    requires
        w > 0,
        h > 0,
        w * h <= g.len(),
        s.len() == g.len(),
        forall|k: int| 0 <= k < g.len() ==> #[trigger] s[k] == g[k] + c,
    ensures
        widen(s, w, h, e, n) == widen(g, w, h, e, n),
    decreases n,
{
    if n > 0 {
        lemma_shifted_widen(g, s, w, h, c, e, (n - 1) as nat);
        lemma_shifted_spread(g, s, w, h, c, widen(g, w, h, e, (n - 1) as nat));
    }
}

/// Only brightness differences matter: adding the same amount to every pixel
/// (without overflow) leaves the contour unchanged.
pub proof fn lemma_brightness_shift_keeps_edges(
    g: Seq<u8>,
    shifted: Seq<u8>,
    w: int,
    h: int,
    threshold: u8,
    thickness: u8,
    c: u8,
)
    requires
        w >= 0,
        h >= 0,
        w == 0 || h == 0 || g.len() == 0 || w * h <= g.len(),
        shifted.len() == g.len(),
        forall|k: int| 0 <= k < g.len() ==> #[trigger] shifted[k] == g[k] + c,
    ensures
        spec_inner_edges(shifted, w, h, threshold, thickness) == spec_inner_edges(g, w, h, threshold, thickness),
{
    if w == 0 || h == 0 || g.len() == 0 {
        assert(spec_inner_edges(shifted, w, h, threshold, thickness) =~= spec_inner_edges(g, w, h, threshold, thickness));
    } else {
        let n = spread_passes(thickness);
        let s = shifted;
        assert forall|j: int| 0 <= j < g.len() implies #[trigger] initial_edges(s, w, h, threshold)[j]
            == initial_edges(g, w, h, threshold)[j] by {
            if j < w * h {
                lemma_grid_index(j, w, h);
                lemma_shifted_row_min(g, s, w, h, c, j);
                if j / w > 0 {
                    lemma_shifted_row_min(g, s, w, h, c, j - w);
                }
                if j / w + 1 < h {
                    lemma_shifted_row_min(g, s, w, h, c, j + w);
                }
                assert(block_min(s, w, h, j) == block_min(g, w, h, j) + c);
                assert(s[j] == g[j] + c);
            }
        }
        assert(initial_edges(s, w, h, threshold) =~= initial_edges(g, w, h, threshold));
        lemma_edges_after_is_widen(s, w, h, threshold, n);
        lemma_edges_after_is_widen(g, w, h, threshold, n);
        lemma_shifted_widen(g, s, w, h, c, initial_edges(g, w, h, threshold), n);
    }
}

fn min_byte(a: u8, b: u8) -> (r: u8)
    ensures r == min_u8(a, b),
{
    if a <= b { a } else { b }
}

fn max_byte(a: u8, b: u8) -> (r: u8)
    ensures r == max_u8(a, b),
{
    if a >= b { a } else { b }
}

/// Inner-contour intensities of a row-major grayscale frame, computed with a
/// separable minimum filter (row minima first, then column minima of those).
pub fn inner_edges(gray: &[u8], width: usize, height: usize, threshold: u8, thickness: u8) -> (edges: Vec<u8>)
    requires
        width == 0 || height == 0 || gray@.len() == 0 || width * height <= gray@.len(),
    ensures
        edges@ == spec_inner_edges(gray@, width as int, height as int, threshold, thickness),
        edges@.len() == gray@.len(),
{
    let n = gray.len();
    if width == 0 || height == 0 || n == 0 {
        let zeros = vec![0u8; n];
        assert(zeros@ =~= spec_inner_edges(gray@, width as int, height as int, threshold, thickness));
        return zeros;
    }
    let ghost g = gray@;
    let ghost w = width as int;
    let ghost h = height as int;

    // Row minima.
    let mut horizontal_minimum = vec![0u8; n];
    let mut y: usize = 0;
    while y < height
        invariant
            g == gray@,
            w == width as int,
            h == height as int,
            width > 0,
            height > 0,
            n == g.len(),
            w * h <= n,
            y <= height,
            horizontal_minimum@.len() == n,
            forall|j: int| 0 <= j < y * w ==> #[trigger] horizontal_minimum@[j] == row_min(g, w, j),
        decreases height - y,
    {
        proof {
            lemma_index_of(0, y as int, w, h);
        }
        let row_start = y * width;
        let mut x: usize = 0;
        while x < width
            invariant
                g == gray@,
                w == width as int,
                h == height as int,
                width > 0,
                height > 0,
                n == g.len(),
                w * h <= n,
                y < height,
                x <= width,
                row_start == y * w,
                horizontal_minimum@.len() == n,
                forall|j: int| 0 <= j < row_start + x ==> #[trigger] horizontal_minimum@[j] == row_min(g, w, j),
            decreases width - x,
        {
            proof {
                lemma_index_of(x as int, y as int, w, h);
                assert(row_start + x < n);
            }
            let index = row_start + x;
            proof {
                lemma_grid_index(index as int, w, h);
            }
            let mut value = gray[index];
            if x > 0 {
                value = min_byte(value, gray[index - 1]);
            }
            if x + 1 < width {
                value = min_byte(value, gray[index + 1]);
            }
            horizontal_minimum[index] = value;
            x = x + 1;
        }
        proof {
            assert((y + 1) * w == y * w + w) by (nonlinear_arith);
        }
        y = y + 1;
    }

    // Column minima of the row minima, then the edge strength.
    let t = if threshold >= 4 { threshold } else { 4 };
    let mut edges = vec![0u8; n];
    proof {
        assert forall|j: int| 0 <= j < n implies edges@[j] == 0 by {
            assert(cloned::<u8>(0u8, edges@[j]));
        }
    }
    let mut y: usize = 0;
    while y < height
        invariant
            g == gray@,
            w == width as int,
            h == height as int,
            width > 0,
            height > 0,
            n == g.len(),
            w * h <= n,
            y <= height,
            t == effective_threshold(threshold),
            horizontal_minimum@.len() == n,
            forall|j: int| 0 <= j < w * h ==> #[trigger] horizontal_minimum@[j] == row_min(g, w, j),
            edges@.len() == n,
            forall|j: int| 0 <= j < y * w ==> #[trigger] edges@[j] == edge_strength(g, w, h, threshold, j),
            forall|j: int| w * h <= j < n ==> #[trigger] edges@[j] == 0,
        decreases height - y,
    {
        proof {
            lemma_index_of(0, y as int, w, h);
        }
        let mut x: usize = 0;
        while x < width
            invariant
                g == gray@,
                w == width as int,
                h == height as int,
                width > 0,
                height > 0,
                n == g.len(),
                w * h <= n,
                y < height,
                x <= width,
                t == effective_threshold(threshold),
                horizontal_minimum@.len() == n,
                forall|j: int| 0 <= j < w * h ==> #[trigger] horizontal_minimum@[j] == row_min(g, w, j),
                edges@.len() == n,
                forall|j: int| 0 <= j < y * w + x ==> #[trigger] edges@[j] == edge_strength(g, w, h, threshold, j),
                forall|j: int| w * h <= j < n ==> #[trigger] edges@[j] == 0,
            decreases width - x,
        {
            proof {
                lemma_index_of(x as int, y as int, w, h);
                lemma_grid_index((y * width + x) as int, w, h);
            }
            let index = y * width + x;
            let center = gray[index];
            let mut neighbor_minimum = horizontal_minimum[index];
            if y > 0 {
                neighbor_minimum = min_byte(neighbor_minimum, horizontal_minimum[index - width]);
            }
            if y + 1 < height {
                neighbor_minimum = min_byte(neighbor_minimum, horizontal_minimum[index + width]);
            }
            let difference = center.saturating_sub(neighbor_minimum);
            let excess = difference.saturating_sub(t);
            let strength = if excess <= 63 { excess * 4 } else { 255 };
            edges[index] = strength;
            x = x + 1;
        }
        proof {
            assert((y + 1) * w == y * w + w) by (nonlinear_arith);
        }
        y = y + 1;
    }
    assert(edges@ =~= edges_after(g, w, h, threshold, 0));

    // Widening passes.
    let passes: u8 = if thickness <= 1 { 1 } else if thickness >= 4 { 4 } else { thickness };
    let mut expanded = vec![0u8; n];
    proof {
        assert forall|j: int| 0 <= j < n implies expanded@[j] == 0 by {
            assert(cloned::<u8>(0u8, expanded@[j]));
        }
    }
    let mut pass: u8 = 1;
    while pass < passes
        invariant
            g == gray@,
            w == width as int,
            h == height as int,
            width > 0,
            height > 0,
            n == g.len(),
            w * h <= n,
            1 <= pass <= passes,
            passes as nat == spread_passes(thickness) + 1,
            edges@ == edges_after(g, w, h, threshold, (pass - 1) as nat),
            edges@.len() == n,
            expanded@.len() == n,
            forall|j: int| w * h <= j < n ==> #[trigger] edges@[j] == 0,
            forall|j: int| w * h <= j < n ==> #[trigger] expanded@[j] == 0,
        decreases passes - pass,
    {
        let ghost previous = edges@;
        let mut y: usize = 0;
        while y < height
            invariant
                g == gray@,
                w == width as int,
                h == height as int,
                width > 0,
                height > 0,
                n == g.len(),
                w * h <= n,
                y <= height,
                edges@ == previous,
                previous.len() == n,
                expanded@.len() == n,
                forall|j: int| 0 <= j < y * w ==> #[trigger] expanded@[j] == spread_at(g, w, h, previous, j),
                forall|j: int| w * h <= j < n ==> #[trigger] expanded@[j] == 0,
            decreases height - y,
        {
            proof {
                lemma_index_of(0, y as int, w, h);
            }
            let mut x: usize = 0;
            while x < width
                invariant
                    g == gray@,
                    w == width as int,
                    h == height as int,
                    width > 0,
                    height > 0,
                    n == g.len(),
                    w * h <= n,
                    y < height,
                    x <= width,
                    edges@ == previous,
                    previous.len() == n,
                    expanded@.len() == n,
                    forall|j: int| 0 <= j < y * w + x ==> #[trigger] expanded@[j] == spread_at(g, w, h, previous, j),
                    forall|j: int| w * h <= j < n ==> #[trigger] expanded@[j] == 0,
                decreases width - x,
            {
                proof {
                    lemma_index_of(x as int, y as int, w, h);
                    lemma_grid_index((y * width + x) as int, w, h);
                }
                let index = y * width + x;
                let mut value = edges[index];
                if y > 0 && gray[index] >= gray[index - width] {
                    value = max_byte(value, edges[index - width]);
                }
                if y + 1 < height && gray[index] >= gray[index + width] {
                    value = max_byte(value, edges[index + width]);
                }
                if x > 0 && gray[index] >= gray[index - 1] {
                    value = max_byte(value, edges[index - 1]);
                }
                if x + 1 < width && gray[index] >= gray[index + 1] {
                    value = max_byte(value, edges[index + 1]);
                }
                expanded[index] = value;
                x = x + 1;
            }
            proof {
                assert((y + 1) * w == y * w + w) by (nonlinear_arith);
            }
            y = y + 1;
        }
        assert(expanded@ =~= spread(g, w, h, previous));
        std::mem::swap(&mut edges, &mut expanded);
        pass = pass + 1;
    }
    edges
}

} // verus!
