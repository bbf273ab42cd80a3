//! Greedy best-first infill of masked (defective) pixels.
//!
//! A defect mask marks still-defective cells with nonzero samples. The fill
//! repeatedly picks the first masked cell in raster scan order, estimates it
//! as the mean of the already-valid samples in its 3x3 window, writes the
//! estimate, clears its mask bit, and walks to the still-masked 8-neighbor
//! with the most valid neighbors of its own. Later fills read earlier fills,
//! so propagation order is part of the algorithm's meaning. Termination is
//! guaranteed because every step clears one mask bit and mask bits are never
//! set.

use vstd::prelude::*;

use crate::buffer::{
    in_sample_range, raster_index, ImageBuffer, SAMPLE_MAX,
};
use crate::enums::Camera;
use crate::error::Error;

verus! {

/// A masked cell under consideration, with its count of valid neighbors.
#[derive(Debug, Clone, Copy, PartialEq, Eq, Structural)]
pub struct Point {
    pub x: usize,
    pub y: usize,
    pub score: u32,
}

/// A mask sequence of a `w x h` raster has a clear bit at `(x, y)`.
pub open spec fn s_cell_clear(m: Seq<i64>, w: int, h: int, x: int, y: int) -> bool {
    0 <= x < w && 0 <= y < h && m[raster_index(x, y, w)] == 0
}

/// A mask sequence of a `w x h` raster has a set bit at `(x, y)`.
pub open spec fn s_cell_masked(m: Seq<i64>, w: int, h: int, x: int, y: int) -> bool {
    0 <= x < w && 0 <= y < h && m[raster_index(x, y, w)] != 0
}

/// The cell lies on the raster and its mask bit is clear.
pub open spec fn cell_clear(m: &ImageBuffer, x: int, y: int) -> bool {
    s_cell_clear(m@, m.width as int, m.height as int, x, y)
}

/// The cell lies on the raster and its mask bit is set.
pub open spec fn cell_masked(m: &ImageBuffer, x: int, y: int) -> bool {
    s_cell_masked(m@, m.width as int, m.height as int, x, y)
}

/// Number of 8-neighbors of `(x, y)` that are on the raster and valid.
pub open spec fn s_num_good_neighbors(m: Seq<i64>, w: int, h: int, x: int, y: int) -> int {
    (if s_cell_clear(m, w, h, x, y - 1) { 1int } else { 0int })
    + (if s_cell_clear(m, w, h, x - 1, y - 1) { 1int } else { 0int })
    + (if s_cell_clear(m, w, h, x - 1, y) { 1int } else { 0int })
    + (if s_cell_clear(m, w, h, x - 1, y + 1) { 1int } else { 0int })
    + (if s_cell_clear(m, w, h, x, y + 1) { 1int } else { 0int })
    + (if s_cell_clear(m, w, h, x + 1, y + 1) { 1int } else { 0int })
    + (if s_cell_clear(m, w, h, x + 1, y) { 1int } else { 0int })
    + (if s_cell_clear(m, w, h, x + 1, y - 1) { 1int } else { 0int })
}

/// Number of valid 8-neighbors, on the raster form.
pub open spec fn spec_num_good_neighbors(m: &ImageBuffer, x: int, y: int) -> int {
    s_num_good_neighbors(m@, m.width as int, m.height as int, x, y)
}

/// Contribution of one window cell to the estimation sum: its sample if the
/// cell is on the raster and valid, zero otherwise.
pub open spec fn s_wsum_cell(b: Seq<i64>, m: Seq<i64>, w: int, h: int, x: int, y: int) -> int {
    if s_cell_clear(m, w, h, x, y) {
        b[raster_index(x, y, w)] as int
    } else {
        0
    }
}

/// Contribution of one window cell to the estimation count.
pub open spec fn s_wcnt_cell(b: Seq<i64>, m: Seq<i64>, w: int, h: int, x: int, y: int) -> int {
    if s_cell_clear(m, w, h, x, y) {
        1
    } else {
        0
    }
}

/// Sum of the valid samples in the 3x3 window centered on `(x, y)`.
pub open spec fn s_window_sum(b: Seq<i64>, m: Seq<i64>, w: int, h: int, x: int, y: int) -> int {
    s_wsum_cell(b, m, w, h, x - 1, y - 1) + s_wsum_cell(b, m, w, h, x, y - 1) + s_wsum_cell(
        b, m, w, h, x + 1, y - 1) + s_wsum_cell(b, m, w, h, x - 1, y) + s_wsum_cell(b, m, w, h, x,
        y) + s_wsum_cell(b, m, w, h, x + 1, y) + s_wsum_cell(b, m, w, h, x - 1, y + 1)
        + s_wsum_cell(b, m, w, h, x, y + 1) + s_wsum_cell(b, m, w, h, x + 1, y + 1)
}

/// Count of the valid samples in the 3x3 window centered on `(x, y)`.
pub open spec fn s_window_count(b: Seq<i64>, m: Seq<i64>, w: int, h: int, x: int, y: int) -> int {
    s_wcnt_cell(b, m, w, h, x - 1, y - 1) + s_wcnt_cell(b, m, w, h, x, y - 1) + s_wcnt_cell(
        b, m, w, h, x + 1, y - 1) + s_wcnt_cell(b, m, w, h, x - 1, y) + s_wcnt_cell(b, m, w, h, x,
        y) + s_wcnt_cell(b, m, w, h, x + 1, y) + s_wcnt_cell(b, m, w, h, x - 1, y + 1)
        + s_wcnt_cell(b, m, w, h, x, y + 1) + s_wcnt_cell(b, m, w, h, x + 1, y + 1)
}

/// The estimate written into a masked cell: the mean (truncated toward
/// zero) of the valid samples in its 3x3 window, or zero when the window
/// holds no valid sample.
pub open spec fn s_predict(b: Seq<i64>, m: Seq<i64>, w: int, h: int, x: int, y: int) -> i64 {
    if s_window_count(b, m, w, h, x, y) > 0 {
        crate::buffer::div_trunc(s_window_sum(b, m, w, h, x, y), s_window_count(b, m, w, h, x,
            y)) as i64
    } else {
        0
    }
}

/// One window cell's sum contribution, on the raster form.
pub open spec fn wsum_cell(b: &ImageBuffer, m: &ImageBuffer, x: int, y: int) -> int {
    s_wsum_cell(b@, m@, b.width as int, b.height as int, x, y)
}

/// One window cell's count contribution, on the raster form.
pub open spec fn wcnt_cell(b: &ImageBuffer, m: &ImageBuffer, x: int, y: int) -> int {
    s_wcnt_cell(b@, m@, b.width as int, b.height as int, x, y)
}

/// The 3x3 window sum, on the raster form.
pub open spec fn window_sum(b: &ImageBuffer, m: &ImageBuffer, x: int, y: int) -> int {
    s_window_sum(b@, m@, b.width as int, b.height as int, x, y)
}

/// The 3x3 window count, on the raster form.
pub open spec fn window_count(b: &ImageBuffer, m: &ImageBuffer, x: int, y: int) -> int {
    s_window_count(b@, m@, b.width as int, b.height as int, x, y)
}

/// The window-mean estimate, on the raster form.
pub open spec fn spec_predict(b: &ImageBuffer, m: &ImageBuffer, x: int, y: int) -> i64 {
    s_predict(b@, m@, b.width as int, b.height as int, x, y)
}

/// Number of nonzero samples in a mask.
pub open spec fn count_nonzero(s: Seq<i64>) -> nat
    decreases s.len(),
{
    if s.len() == 0 {
        0
    } else {
        count_nonzero(s.drop_last()) + if s.last() != 0 {
            1nat
        } else {
            0nat
        }
    }
}

/// Clearing a nonzero cell lowers the nonzero count by exactly one.
pub proof fn lemma_count_nonzero_clear(s: Seq<i64>, j: int)
    requires
        0 <= j < s.len(),
        s[j] != 0,
    ensures
        count_nonzero(s.update(j, 0i64)) == count_nonzero(s) - 1,
    decreases s.len(),
{
    let t = s.update(j, 0i64);
    if j == s.len() - 1 {
        assert(t.drop_last() =~= s.drop_last());
        assert(t.last() == 0 && s.last() != 0);
    } else {
        lemma_count_nonzero_clear(s.drop_last(), j);
        assert(t.drop_last() =~= s.drop_last().update(j, 0i64));
        assert(t.last() == s.last());
    }
}

/// One fill step at `(x, y)`: the window-mean estimate is written into the
/// buffer and the cell's mask bit is cleared.
pub open spec fn fill_step(b: Seq<i64>, m: Seq<i64>, w: int, h: int, x: int, y: int) -> (
    Seq<i64>,
    Seq<i64>,
) {
    let i = raster_index(x, y, w);
    (b.update(i, s_predict(b, m, w, h, x, y)), m.update(i, 0i64))
}

/// The buffer and mask a whole propagation chain leaves behind: starting at
/// a masked cell, fill it, clear it, and continue at the best still-masked
/// 8-neighbor until none remains. Each step reads the fills of the steps
/// before it, so this fixes the order-dependent meaning of the algorithm.
pub open spec fn spec_infill_chain(b: Seq<i64>, m: Seq<i64>, w: int, h: int, x: int, y: int) -> (
    Seq<i64>,
    Seq<i64>,
)
    decreases count_nonzero(m),
    via spec_infill_chain_dec
{
    if s_cell_masked(m, w, h, x, y) && b.len() == w * h && m.len() == w * h {
        let stepped = fill_step(b, m, w, h, x, y);
        match s_find_next(stepped.1, w, h, x, y) {
            Some(pt) => spec_infill_chain(stepped.0, stepped.1, w, h, pt.x as int, pt.y as int),
            None => stepped,
        }
    } else {
        (b, m)
    }
}

#[via_fn]
proof fn spec_infill_chain_dec(b: Seq<i64>, m: Seq<i64>, w: int, h: int, x: int, y: int) {
    if s_cell_masked(m, w, h, x, y) && b.len() == w * h && m.len() == w * h {
        crate::buffer::lemma_raster_index_bound(x, y, w, h);
        lemma_count_nonzero_clear(m, raster_index(x, y, w));
    }
}

/// Whether `(x, y)` is on the raster and valid.
fn cell_clear_exec(m: &ImageBuffer, x: i64, y: i64) -> (r: bool)
    requires
        m.wf(),
        m.width < i64::MAX,
        m.height < i64::MAX,
    ensures
        r == cell_clear(m, x as int, y as int),
{
    if x >= 0 && y >= 0 && x < (m.width as i64) && y < (m.height as i64) {
        proof {
            crate::buffer::lemma_raster_index_bound(x as int, y as int, m.width as int,
                m.height as int);
        }
        m.buffer[(y as usize) * m.width + (x as usize)] == 0
    } else {
        false
    }
}

/// Reads a sample if `(x, y)` is on the raster and valid; `None` otherwise.
fn read_valid_cell(b: &ImageBuffer, m: &ImageBuffer, x: i64, y: i64) -> (r: Option<i64>)
    requires
        b.wf(),
        m.wf(),
        b.width == m.width,
        b.height == m.height,
        b.width < i64::MAX,
        b.height < i64::MAX,
    ensures
        r is Some <==> (b.in_bounds(x as int, y as int) && m.sample_at(x as int, y as int) == 0),
        r matches Some(v) ==> v == b.sample_at(x as int, y as int) && in_sample_range(v),
{
    if cell_clear_exec(m, x, y) {
        proof {
            crate::buffer::lemma_raster_index_bound(x as int, y as int, b.width as int,
                b.height as int);
        }
        Some(b.buffer[(y as usize) * b.width + (x as usize)])
    } else {
        None
    }
}

/// Number of valid 8-neighbors of the masked cell at `(x, y)`.
fn get_num_good_neighbors(m: &ImageBuffer, x: i64, y: i64) -> (r: u32)
    requires
        m.wf(),
        m.width < i64::MAX,
        m.height < i64::MAX,
        -1 <= x && x <= i64::MAX - 1,
        -1 <= y && y <= i64::MAX - 1,
    ensures
        r == spec_num_good_neighbors(m, x as int, y as int),
{
    let mut s: u32 = 0;
    if cell_clear_exec(m, x, y - 1) {
        s = s + 1;
    }
    if cell_clear_exec(m, x - 1, y - 1) {
        s = s + 1;
    }
    if cell_clear_exec(m, x - 1, y) {
        s = s + 1;
    }
    if cell_clear_exec(m, x - 1, y + 1) {
        s = s + 1;
    }
    if cell_clear_exec(m, x, y + 1) {
        s = s + 1;
    }
    if cell_clear_exec(m, x + 1, y + 1) {
        s = s + 1;
    }
    if cell_clear_exec(m, x + 1, y) {
        s = s + 1;
    }
    if cell_clear_exec(m, x + 1, y - 1) {
        s = s + 1;
    }
    s
}

/// The candidate produced for `(x, y)`: the cell together with its
/// good-neighbor score when it is on the raster and still masked.
pub open spec fn s_point_at(m: Seq<i64>, w: int, h: int, x: int, y: int) -> Option<Point> {
    if s_cell_masked(m, w, h, x, y) {
        Some(
            Point {
                x: x as usize,
                y: y as usize,
                score: s_num_good_neighbors(m, w, h, x, y) as u32,
            },
        )
    } else {
        None
    }
}

/// The candidate produced for `(x, y)`, on the raster form.
pub open spec fn spec_point_at(m: &ImageBuffer, x: int, y: int) -> Option<Point> {
    s_point_at(m@, m.width as int, m.height as int, x, y)
}

/// Scores the cell at `(x, y)`: `Some` exactly when the cell is on the
/// raster and still masked, carrying its good-neighbor count.
fn get_point_and_score_at_xy(m: &ImageBuffer, x: i64, y: i64) -> (r: Option<Point>)
    requires
        m.wf(),
        m.width < i64::MAX,
        m.height < i64::MAX,
        -1 <= x && x <= i64::MAX - 1,
        -1 <= y && y <= i64::MAX - 1,
    ensures
        r == spec_point_at(m, x as int, y as int),
{
    if x < 0 || y < 0 || x >= (m.width as i64) || y >= (m.height as i64) {
        return None;
    }
    proof {
        crate::buffer::lemma_raster_index_bound(x as int, y as int, m.width as int,
            m.height as int);
    }
    let v = m.buffer[(y as usize) * m.width + (x as usize)];
    if v == 0 {
        return None;
    }
    let score = get_num_good_neighbors(m, x, y);
    Some(Point { x: x as usize, y: y as usize, score })
}

/// The better of a candidate so far and a new candidate: the new one wins
/// unless the old one scores strictly higher.
pub open spec fn spec_find_larger(left: Option<Point>, right: Point) -> Option<Point> {
    match left {
        Some(pt) => if pt.score > right.score {
            Some(pt)
        } else {
            Some(right)
        },
        None => Some(right),
    }
}

/// Keeps the higher-scoring of the candidate so far and a new candidate;
/// on a tie the newer candidate wins.
pub fn find_larger(left: Option<Point>, right: &Point) -> (r: Option<Point>)
    ensures
        r == spec_find_larger(left, *right),
{
    match left {
        Some(pt) => {
            if pt.score > right.score {
                Some(pt)
            } else {
                Some(*right)
            }
        },
        None => Some(*right),
    }
}

/// Folds one candidate into the best-so-far.
pub open spec fn fold_candidate(acc: Option<Point>, cand: Option<Point>) -> Option<Point> {
    match cand {
        Some(pt) => spec_find_larger(acc, pt),
        None => acc,
    }
}

/// The next cell the fill moves to from `(x, y)`: its still-masked
/// 8-neighbors are scored by their own count of valid neighbors and the
/// highest score wins, later enumeration order (top, top-left, left,
/// bottom-left, bottom, bottom-right, right, top-right) breaking ties.
pub open spec fn s_find_next(m: Seq<i64>, w: int, h: int, x: int, y: int) -> Option<Point> {
    let c0 = fold_candidate(None, s_point_at(m, w, h, x, y - 1));
    let c1 = fold_candidate(c0, s_point_at(m, w, h, x - 1, y - 1));
    let c2 = fold_candidate(c1, s_point_at(m, w, h, x - 1, y));
    let c3 = fold_candidate(c2, s_point_at(m, w, h, x - 1, y + 1));
    let c4 = fold_candidate(c3, s_point_at(m, w, h, x, y + 1));
    let c5 = fold_candidate(c4, s_point_at(m, w, h, x + 1, y + 1));
    let c6 = fold_candidate(c5, s_point_at(m, w, h, x + 1, y));
    fold_candidate(c6, s_point_at(m, w, h, x + 1, y - 1))
}

/// The fill's next cell, on the raster form.
pub open spec fn spec_find_next(m: &ImageBuffer, x: int, y: int) -> Option<Point> {
    s_find_next(m@, m.width as int, m.height as int, x, y)
}

/// Folding candidates yields a masked cell whenever it yields anything.
proof fn lemma_fold_masked(m: &ImageBuffer, acc: Option<Point>, x: int, y: int)
    requires
        acc matches Some(pt) ==> cell_masked(m, pt.x as int, pt.y as int),
        -1 <= x,
        -1 <= y,
    ensures
        fold_candidate(acc, spec_point_at(m, x, y)) matches Some(pt) ==> cell_masked(m,
            pt.x as int, pt.y as int),
{
}

/// Picks the masked 8-neighbor of `(x, y)` the fill moves to next; `None`
/// exactly when no 8-neighbor is still masked.
pub fn find_next_point(m: &ImageBuffer, x: i64, y: i64) -> (r: Option<Point>)
    requires
        m.wf(),
        m.width < i64::MAX,
        m.height < i64::MAX,
        0 <= x && x < i64::MAX - 1,
        0 <= y && y < i64::MAX - 1,
    ensures
        r == spec_find_next(m, x as int, y as int),
        r matches Some(pt) ==> cell_masked(m, pt.x as int, pt.y as int),
        r is None ==> forall|dx: int, dy: int|
            -1 <= dx <= 1 && -1 <= dy <= 1 && !(dx == 0 && dy == 0) ==> !#[trigger] cell_masked(
                m, x + dx, y + dy),
{
    let ghost c0 = fold_candidate(None, spec_point_at(m, x as int, y - 1));
    let ghost c1 = fold_candidate(c0, spec_point_at(m, x - 1, y - 1));
    let ghost c2 = fold_candidate(c1, spec_point_at(m, x - 1, y as int));
    let ghost c3 = fold_candidate(c2, spec_point_at(m, x - 1, y + 1));
    let ghost c4 = fold_candidate(c3, spec_point_at(m, x as int, y + 1));
    let ghost c5 = fold_candidate(c4, spec_point_at(m, x + 1, y + 1));
    let ghost c6 = fold_candidate(c5, spec_point_at(m, x + 1, y as int));
    let ghost c7 = fold_candidate(c6, spec_point_at(m, x + 1, y - 1));
    let mut best: Option<Point> = None;
    let c = get_point_and_score_at_xy(m, x, y - 1);
    if let Some(pt) = c {
        best = find_larger(best, &pt);
    }
    proof {
        assert(best == c0);
    }
    let c = get_point_and_score_at_xy(m, x - 1, y - 1);
    if let Some(pt) = c {
        best = find_larger(best, &pt);
    }
    proof {
        assert(best == c1);
    }
    let c = get_point_and_score_at_xy(m, x - 1, y);
    if let Some(pt) = c {
        best = find_larger(best, &pt);
    }
    proof {
        assert(best == c2);
    }
    let c = get_point_and_score_at_xy(m, x - 1, y + 1);
    if let Some(pt) = c {
        best = find_larger(best, &pt);
    }
    proof {
        assert(best == c3);
    }
    let c = get_point_and_score_at_xy(m, x, y + 1);
    if let Some(pt) = c {
        best = find_larger(best, &pt);
    }
    proof {
        assert(best == c4);
    }
    let c = get_point_and_score_at_xy(m, x + 1, y + 1);
    if let Some(pt) = c {
        best = find_larger(best, &pt);
    }
    proof {
        assert(best == c5);
    }
    let c = get_point_and_score_at_xy(m, x + 1, y);
    if let Some(pt) = c {
        best = find_larger(best, &pt);
    }
    proof {
        assert(best == c6);
    }
    let c = get_point_and_score_at_xy(m, x + 1, y - 1);
    if let Some(pt) = c {
        best = find_larger(best, &pt);
    }
    proof {
        assert(best == c7);
        lemma_fold_masked(m, None, x as int, y - 1);
        lemma_fold_masked(m, c0, x - 1, y - 1);
        lemma_fold_masked(m, c1, x - 1, y as int);
        lemma_fold_masked(m, c2, x - 1, y + 1);
        lemma_fold_masked(m, c3, x as int, y + 1);
        lemma_fold_masked(m, c4, x + 1, y + 1);
        lemma_fold_masked(m, c5, x + 1, y as int);
        lemma_fold_masked(m, c6, x + 1, y - 1);
        if spec_find_next(m, x as int, y as int) is None {
            assert forall|dx: int, dy: int|
                -1 <= dx <= 1 && -1 <= dy <= 1 && !(dx == 0 && dy == 0) implies !#[trigger] cell_masked(
                m, x as int + dx, y as int + dy) by {
                if cell_masked(m, x as int + dx, y as int + dy) {
                    assert(spec_point_at(m, x as int + dx, y as int + dy) is Some);
                }
            }
        }
    }
    best
}

/// Finds the first still-masked cell in raster scan order; `None` exactly
/// when no cell is masked. (A cell is masked here when its sample is
/// strictly positive, as mask rasters carry nonnegative samples.)
pub fn find_starting_point(m: &ImageBuffer) -> (r: Option<Point>)
    requires
        m.wf(),
    ensures
        r is Some <==> exists|i: int| 0 <= i < m@.len() && m@[i] > 0,
        r matches Some(pt) ==> {
            &&& m.in_bounds(pt.x as int, pt.y as int)
            &&& m.sample_at(pt.x as int, pt.y as int) > 0
            &&& pt.score == 0
            &&& forall|j: int| 0 <= j < raster_index(pt.x as int, pt.y as int, m.width as int)
                ==> m@[j] <= 0
        },
{
    let n = m.buffer.len();
    let mut i: usize = 0;
    while i < n
        invariant
            i <= n,
            m.wf(),
            n == m@.len(),
            forall|j: int| 0 <= j < i ==> m@[j] <= 0,
        decreases n - i,
    {
        if m.buffer[i] > 0 {
            proof {
                assert(m.width != 0) by (nonlinear_arith)
                    requires
                        0 < m@.len(),
                        m@.len() == m.width * m.height,
                ;
            }
            let x = i % m.width;
            let y = i / m.width;
            proof {
                vstd::arithmetic::div_mod::lemma_fundamental_div_mod(i as int, m.width as int);
                vstd::arithmetic::div_mod::lemma_mod_bound(i as int, m.width as int);
                assert(m.width as int * (y as int) == (y as int) * (m.width as int))
                    by (nonlinear_arith);
                assert(y * m.width + x == i);
                assert(y < m.height) by (nonlinear_arith)
                    requires
                        i as int == y * m.width + x,
                        0 <= x < m.width,
                        i < m.width * m.height,
                ;
            }
            return Some(Point { x, y, score: 0 });
        }
        i = i + 1;
    }
    None
}

/// Writes the window-mean estimate into the masked cell at `(x, y)` and
/// clears its mask bit.
fn fill_cell(buffer: &mut ImageBuffer, mask: &mut ImageBuffer, x: usize, y: usize)
    requires
        old(buffer).wf(),
        old(mask).wf(),
        old(buffer).width == old(mask).width,
        old(buffer).height == old(mask).height,
        old(buffer).in_bounds(x as int, y as int),
        old(buffer).width < i64::MAX,
        old(buffer).height < i64::MAX,
    ensures
        final(buffer).wf(),
        final(mask).wf(),
        final(buffer).width == old(buffer).width,
        final(buffer).height == old(buffer).height,
        final(mask).width == old(mask).width,
        final(mask).height == old(mask).height,
        final(buffer)@ == old(buffer)@.update(
            raster_index(x as int, y as int, old(buffer).width as int),
            spec_predict(old(buffer), old(mask), x as int, y as int),
        ),
        final(mask)@ == old(mask)@.update(
            raster_index(x as int, y as int, old(mask).width as int), 0i64),
{
    let estimate = predict_value(buffer, mask, x, y);
    let rb = buffer.put(x, y, estimate);
    let rm = mask.put(x, y, 0);
    proof {
        assert(rb is Ok && rm is Ok);
    }
}

/// One window cell contributes at most one count and a range-bounded sum.
proof fn lemma_wcell_bound(b: &ImageBuffer, m: &ImageBuffer, x: int, y: int)
    requires
        b.wf(),
    ensures
        0 <= wcnt_cell(b, m, x, y) <= 1,
        -wcnt_cell(b, m, x, y) * SAMPLE_MAX <= wsum_cell(b, m, x, y),
        wsum_cell(b, m, x, y) <= wcnt_cell(b, m, x, y) * SAMPLE_MAX,
{
    if b.in_bounds(x, y) {
        crate::buffer::lemma_raster_index_bound(x, y, b.width as int, b.height as int);
    }
}

/// The window sum is bounded by the window count times the sample ceiling.
proof fn lemma_window_bound(b: &ImageBuffer, m: &ImageBuffer, x: int, y: int)
    requires
        b.wf(),
    ensures
        0 <= window_count(b, m, x, y) <= 9,
        -window_count(b, m, x, y) * SAMPLE_MAX <= window_sum(b, m, x, y),
        window_sum(b, m, x, y) <= window_count(b, m, x, y) * SAMPLE_MAX,
{
    lemma_wcell_bound(b, m, x - 1, y - 1);
    lemma_wcell_bound(b, m, x, y - 1);
    lemma_wcell_bound(b, m, x + 1, y - 1);
    lemma_wcell_bound(b, m, x - 1, y);
    lemma_wcell_bound(b, m, x, y);
    lemma_wcell_bound(b, m, x + 1, y);
    lemma_wcell_bound(b, m, x - 1, y + 1);
    lemma_wcell_bound(b, m, x, y + 1);
    lemma_wcell_bound(b, m, x + 1, y + 1);
    let c1 = wcnt_cell(b, m, x - 1, y - 1);
    let c2 = wcnt_cell(b, m, x, y - 1);
    let c3 = wcnt_cell(b, m, x + 1, y - 1);
    let c4 = wcnt_cell(b, m, x - 1, y);
    let c5 = wcnt_cell(b, m, x, y);
    let c6 = wcnt_cell(b, m, x + 1, y);
    let c7 = wcnt_cell(b, m, x - 1, y + 1);
    let c8 = wcnt_cell(b, m, x, y + 1);
    let c9 = wcnt_cell(b, m, x + 1, y + 1);
    assert((c1 + c2 + c3 + c4 + c5 + c6 + c7 + c8 + c9) * SAMPLE_MAX == c1 * SAMPLE_MAX + c2
        * SAMPLE_MAX + c3 * SAMPLE_MAX + c4 * SAMPLE_MAX + c5 * SAMPLE_MAX + c6 * SAMPLE_MAX + c7
        * SAMPLE_MAX + c8 * SAMPLE_MAX + c9 * SAMPLE_MAX) by (nonlinear_arith);
}

/// Sum and count of the valid samples in one three-cell window row.
fn row_stats(b: &ImageBuffer, m: &ImageBuffer, xi: i64, yr: i64) -> (r: (i64, i64))
    requires
        b.wf(),
        m.wf(),
        b.width == m.width,
        b.height == m.height,
        b.width < i64::MAX,
        b.height < i64::MAX,
        0 <= xi < i64::MAX - 1,
        -1 <= yr <= i64::MAX - 1,
    ensures
        r.0 == wsum_cell(b, m, xi - 1, yr as int) + wsum_cell(b, m, xi as int, yr as int)
            + wsum_cell(b, m, xi + 1, yr as int),
        r.1 == wcnt_cell(b, m, xi - 1, yr as int) + wcnt_cell(b, m, xi as int, yr as int)
            + wcnt_cell(b, m, xi + 1, yr as int),
        0 <= r.1 <= 3,
{
    let mut sum: i64 = 0;
    let mut cnt: i64 = 0;
    if let Some(v) = read_valid_cell(b, m, xi - 1, yr) {
        sum = sum + v;
        cnt = cnt + 1;
    }
    if let Some(v) = read_valid_cell(b, m, xi, yr) {
        sum = sum + v;
        cnt = cnt + 1;
    }
    if let Some(v) = read_valid_cell(b, m, xi + 1, yr) {
        sum = sum + v;
        cnt = cnt + 1;
    }
    (sum, cnt)
}

/// Sum and count of the valid samples in the 3x3 window at `(x, y)`.
fn window_stats(b: &ImageBuffer, m: &ImageBuffer, x: usize, y: usize) -> (r: (i64, i64))
    requires
        b.wf(),
        m.wf(),
        b.width == m.width,
        b.height == m.height,
        b.in_bounds(x as int, y as int),
        b.width < i64::MAX,
        b.height < i64::MAX,
    ensures
        r.0 == window_sum(b, m, x as int, y as int),
        r.1 == window_count(b, m, x as int, y as int),
        0 <= r.1 <= 9,
        -r.1 * SAMPLE_MAX <= r.0 <= r.1 * SAMPLE_MAX,
{
    let xi = x as i64;
    let yi = y as i64;
    proof {
        lemma_wcell_bound(b, m, xi - 1, yi - 1);
        lemma_wcell_bound(b, m, xi as int, yi - 1);
        lemma_wcell_bound(b, m, xi + 1, yi - 1);
        lemma_wcell_bound(b, m, xi - 1, yi as int);
        lemma_wcell_bound(b, m, xi as int, yi as int);
        lemma_wcell_bound(b, m, xi + 1, yi as int);
        lemma_wcell_bound(b, m, xi - 1, yi + 1);
        lemma_wcell_bound(b, m, xi as int, yi + 1);
        lemma_wcell_bound(b, m, xi + 1, yi + 1);
    }
    let top = row_stats(b, m, xi, yi - 1);
    let mid = row_stats(b, m, xi, yi);
    let bot = row_stats(b, m, xi, yi + 1);
    let sum = top.0 + mid.0 + bot.0;
    let cnt = top.1 + mid.1 + bot.1;
    proof {
        lemma_window_bound(b, m, xi as int, yi as int);
    }
    (sum, cnt)
}

/// The window-mean estimate for the cell at `(x, y)`: the mean of the
/// valid samples in its 3x3 window, zero when none is valid.
pub fn predict_value(b: &ImageBuffer, m: &ImageBuffer, x: usize, y: usize) -> (r: i64)
    requires
        b.wf(),
        m.wf(),
        b.width == m.width,
        b.height == m.height,
        b.in_bounds(x as int, y as int),
        b.width < i64::MAX,
        b.height < i64::MAX,
    ensures
        r == spec_predict(b, m, x as int, y as int),
        in_sample_range(r),
{
    let stats = window_stats(b, m, x, y);
    let sum = stats.0;
    let cnt = stats.1;
    if cnt == 0 {
        return 0;
    }
    let neg = sum < 0;
    let us: u64 = if neg {
        (-sum) as u64
    } else {
        sum as u64
    };
    let q: u64 = us / (cnt as u64);
    proof {
        vstd::arithmetic::div_mod::lemma_div_is_ordered(us as int, cnt * SAMPLE_MAX, cnt as int);
        vstd::arithmetic::div_mod::lemma_div_multiples_vanish(SAMPLE_MAX as int, cnt as int);
        vstd::arithmetic::div_mod::lemma_div_pos_is_pos(us as int, cnt as int);
    }
    if neg {
        -(q as i64)
    } else {
        q as i64
    }
}

/// The window estimate depends only on the rasters' samples and dimensions.
proof fn lemma_predict_congruent(
    a: &ImageBuffer,
    b: &ImageBuffer,
    ma: &ImageBuffer,
    mb: &ImageBuffer,
    x: int,
    y: int,
)
    requires
        a@ == b@,
        a.width == b.width,
        a.height == b.height,
        ma@ == mb@,
        ma.width == mb.width,
        ma.height == mb.height,
    ensures
        spec_predict(a, ma, x, y) == spec_predict(b, mb, x, y),
{
    assert forall|xx: int, yy: int| #[trigger]
        wsum_cell(a, ma, xx, yy) == wsum_cell(b, mb, xx, yy) && #[trigger] wcnt_cell(a, ma, xx,
        yy) == wcnt_cell(b, mb, xx, yy) by {
        assert(a.in_bounds(xx, yy) == b.in_bounds(xx, yy));
    }
}

/// The mask names `(x, y)` as its only defective cell.
pub open spec fn lone_masked_cell(m: &ImageBuffer, x: int, y: int) -> bool {
    &&& m.in_bounds(x, y)
    &&& m.sample_at(x, y) > 0
    &&& forall|j: int|
        0 <= j < m@.len() && j != raster_index(x, y, m.width as int) ==> #[trigger] m@[j] == 0
}

/// Fills one propagation chain of masked cells, starting at `starting`:
/// estimates the cell from its window, clears its mask bit, and walks to
/// the best still-masked 8-neighbor until none remains. Every step clears
/// one mask bit, so the chain ends.
pub fn infill(buffer: &mut ImageBuffer, mask: &mut ImageBuffer, starting: &Point) -> (r: Result<
    (),
    Error,
>)
    requires
        old(buffer).wf(),
        old(mask).wf(),
        old(buffer).width == old(mask).width,
        old(buffer).height == old(mask).height,
        old(buffer).width < i64::MAX,
        old(buffer).height < i64::MAX,
        old(mask).in_bounds(starting.x as int, starting.y as int),
        old(mask).sample_at(starting.x as int, starting.y as int) != 0,
    ensures
        r is Ok,
        final(buffer).wf(),
        final(mask).wf(),
        final(buffer).width == old(buffer).width,
        final(buffer).height == old(buffer).height,
        final(mask).width == old(mask).width,
        final(mask).height == old(mask).height,
        forall|i: int|
            0 <= i < final(mask)@.len() ==> final(mask)@[i] == old(mask)@[i]
                || #[trigger] final(mask)@[i] == 0,
        forall|i: int|
            0 <= i < final(buffer)@.len() && old(mask)@[i] == 0 ==> #[trigger] final(buffer)@[i]
                == old(buffer)@[i],
        final(mask).sample_at(starting.x as int, starting.y as int) == 0,
        final(buffer).sample_at(starting.x as int, starting.y as int) == spec_predict(old(buffer),
            old(mask), starting.x as int, starting.y as int),
        count_nonzero(final(mask)@) < count_nonzero(old(mask)@),
        ({
            let chain = spec_infill_chain(old(buffer)@, old(mask)@, old(buffer).width as int,
                old(buffer).height as int, starting.x as int, starting.y as int);
            final(buffer)@ == chain.0 && final(mask)@ == chain.1
        }),
{
    let ghost b0 = *old(buffer);
    let ghost m0 = *old(mask);
    let ghost sx = starting.x as int;
    let ghost sy = starting.y as int;
    let ghost sidx = raster_index(sx, sy, m0.width as int);
    proof {
        crate::buffer::lemma_raster_index_bound(sx, sy, m0.width as int, m0.height as int);
    }
    let ghost gw = m0.width as int;
    let ghost gh = m0.height as int;
    let ghost target = spec_infill_chain(b0@, m0@, gw, gh, sx, sy);
    let mut cx = starting.x;
    let mut cy = starting.y;
    let mut go = true;
    while go
        invariant
            gw == m0.width as int,
            gh == m0.height as int,
            target == spec_infill_chain(b0@, m0@, gw, gh, sx, sy),
            go ==> target == spec_infill_chain(buffer@, mask@, gw, gh, cx as int, cy as int),
            !go ==> target == (buffer@, mask@),
            buffer.wf(),
            mask.wf(),
            buffer.width == m0.width,
            buffer.height == m0.height,
            mask.width == m0.width,
            mask.height == m0.height,
            buffer@.len() == b0@.len(),
            mask@.len() == m0@.len(),
            b0.wf(),
            m0.wf(),
            m0.width < i64::MAX,
            m0.height < i64::MAX,
            m0.in_bounds(sx, sy),
            m0.sample_at(sx, sy) != 0,
            sx == starting.x as int,
            sy == starting.y as int,
            sidx == raster_index(sx, sy, m0.width as int),
            0 <= sidx < m0@.len(),
            go ==> mask.in_bounds(cx as int, cy as int) && mask.sample_at(cx as int, cy as int)
                != 0,
            mask@[sidx] != 0 ==> go && cx == starting.x && cy == starting.y && *mask == m0
                && *buffer == b0,
            forall|i: int|
                0 <= i < mask@.len() ==> mask@[i] == m0@[i] || #[trigger] mask@[i] == 0,
            forall|i: int|
                0 <= i < buffer@.len() && m0@[i] == 0 ==> #[trigger] buffer@[i] == b0@[i],
            mask@[sidx] == 0 ==> buffer@[sidx] == spec_predict(&b0, &m0, sx, sy),
            mask@[sidx] == 0 ==> count_nonzero(mask@) < count_nonzero(m0@),
            count_nonzero(mask@) <= count_nonzero(m0@),
        decreases count_nonzero(mask@) + (if go {
            1int
        } else {
            0int
        }),
    {
        let ghost pre_m = *mask;
        let ghost pre_b = *buffer;
        let ghost cidx = raster_index(cx as int, cy as int, m0.width as int);
        proof {
            crate::buffer::lemma_raster_index_bound(cx as int, cy as int, m0.width as int,
                m0.height as int);
        }
        fill_cell(buffer, mask, cx, cy);
        proof {
            lemma_count_nonzero_clear(pre_m@, cidx);
            if pre_m@[sidx] != 0 {
                assert(cx == starting.x && cy == starting.y);
                assert(cidx == sidx);
            }
            assert(mask@[sidx] == 0);
            // The executed step is the chain's step at the current cell.
            assert(s_cell_masked(pre_m@, gw, gh, cx as int, cy as int));
            assert((buffer@, mask@) == fill_step(pre_b@, pre_m@, gw, gh, cx as int, cy as int));
        }
        match find_next_point(mask, cx as i64, cy as i64) {
            Some(pt) => {
                proof {
                    assert(s_find_next(mask@, gw, gh, cx as int, cy as int) == Some(pt));
                    assert(spec_infill_chain(pre_b@, pre_m@, gw, gh, cx as int, cy as int)
                        == spec_infill_chain(buffer@, mask@, gw, gh, pt.x as int, pt.y as int));
                }
                cx = pt.x;
                cy = pt.y;
            },
            None => {
                proof {
                    assert(s_find_next(mask@, gw, gh, cx as int, cy as int) is None);
                    assert(spec_infill_chain(pre_b@, pre_m@, gw, gh, cx as int, cy as int) == (
                    buffer@, mask@));
                }
                go = false;
            },
        }
    }
    Ok(())
}

/// What a completed infill guarantees: dimensions preserved, valid cells
/// untouched, and a lone defective cell surrounded by valid cells carrying
/// exactly its window mean.
pub open spec fn inpaint_post(img: &ImageBuffer, mask: &ImageBuffer, out: &ImageBuffer) -> bool {
    &&& out.wf()
    &&& out.width == img.width
    &&& out.height == img.height
    &&& forall|i: int|
        0 <= i < mask@.len() && mask@[i] == 0 ==> #[trigger] out@[i] == img@[i]
    &&& forall|x: int, y: int|
        #![trigger out.sample_at(x, y)]
        img.in_bounds(x, y) && lone_masked_cell(mask, x, y) ==> out.sample_at(x, y)
            == spec_predict(img, mask, x, y)
}

/// Infills every defective region of `img` under the defect mask
/// `mask_src`: while any mask cell is still set, a propagation chain is
/// filled from the first masked cell in scan order. Valid cells come
/// through untouched, and a mask with a single defective cell surrounded by
/// valid cells receives exactly the mean of the valid samples in its 3x3
/// window. Fails with a size-mismatch condition exactly when the mask and
/// image dimensions differ.
pub fn apply_inpaint_to_buffer_with_mask(img: &ImageBuffer, mask_src: &ImageBuffer) -> (r: Result<
    ImageBuffer,
    Error,
>)
    requires
        img.wf(),
        mask_src.wf(),
        img.width < i64::MAX,
        img.height < i64::MAX,
    ensures
        r is Ok <==> img.width == mask_src.width && img.height == mask_src.height,
        r matches Err(e) ==> e == Error::DimensionMismatch,
        r matches Ok(b) ==> inpaint_post(img, mask_src, &b),
{
    if img.width != mask_src.width || img.height != mask_src.height {
        return Err(Error::DimensionMismatch);
    }
    let mut work = img.duplicate();
    let mut wmask = mask_src.duplicate();
    let mut go = true;
    while go
        invariant
            img.wf(),
            mask_src.wf(),
            img.width < i64::MAX,
            img.height < i64::MAX,
            mask_src.width == img.width,
            mask_src.height == img.height,
            work.wf(),
            wmask.wf(),
            work.width == img.width,
            work.height == img.height,
            wmask.width == img.width,
            wmask.height == img.height,
            forall|i: int|
                0 <= i < wmask@.len() ==> wmask@[i] == mask_src@[i] || #[trigger] wmask@[i] == 0,
            forall|i: int|
                0 <= i < mask_src@.len() && mask_src@[i] == 0 ==> #[trigger] work@[i] == img@[i],
            forall|x: int, y: int|
                #![trigger lone_masked_cell(mask_src, x, y)]
                img.in_bounds(x, y) && lone_masked_cell(mask_src, x, y) && wmask@[raster_index(x,
                    y, img.width as int)] != 0 ==> work@ == img@ && wmask@ == mask_src@,
            forall|x: int, y: int|
                #![trigger lone_masked_cell(mask_src, x, y)]
                img.in_bounds(x, y) && lone_masked_cell(mask_src, x, y) && wmask@[raster_index(x,
                    y, img.width as int)] == 0 ==> work@[raster_index(x, y, img.width as int)]
                    == spec_predict(img, mask_src, x, y),
            !go ==> forall|i: int| 0 <= i < wmask@.len() ==> #[trigger] wmask@[i] <= 0,
        decreases count_nonzero(wmask@) + (if go {
            1int
        } else {
            0int
        }),
    {
        let ghost pre_m = wmask;
        let ghost pre_b = work;
        match find_starting_point(&wmask) {
            Some(pt) => {
                let rr = infill(&mut work, &mut wmask, &pt);
                proof {
                    assert(rr is Ok);
                    assert forall|x: int, y: int|
                        img.in_bounds(x, y) && #[trigger] lone_masked_cell(mask_src, x, y)
                            && wmask@[raster_index(x, y, img.width as int)] == 0 implies work@[
                    raster_index(x, y, img.width as int)] == spec_predict(img, mask_src, x,
                        y) by {
                        let li = raster_index(x, y, img.width as int);
                        crate::buffer::lemma_raster_index_bound(x, y, img.width as int,
                            img.height as int);
                        if pre_m@[li] != 0 {
                            // This chain started at the lone cell with the
                            // original image and mask still intact.
                            let pidx = raster_index(pt.x as int, pt.y as int, img.width as int);
                            crate::buffer::lemma_raster_index_bound(pt.x as int, pt.y as int,
                                img.width as int, img.height as int);
                            assert(pre_m@[pidx] > 0);
                            assert(pre_m@ == mask_src@);
                            if pidx != li {
                                assert(mask_src@[pidx] == 0);
                            }
                            crate::buffer::lemma_raster_index_injective(x, y, pt.x as int,
                                pt.y as int, img.width as int);
                            lemma_predict_congruent(&pre_b, img, &pre_m, mask_src, x, y);
                        }
                    }
                }
            },
            None => {
                go = false;
            },
        }
    }
    proof {
        assert forall|x: int, y: int|
            img.in_bounds(x, y) && #[trigger] lone_masked_cell(mask_src, x, y) implies
        work.sample_at(x, y) == spec_predict(img, mask_src, x, y) by {
            let li = raster_index(x, y, img.width as int);
            crate::buffer::lemma_raster_index_bound(x, y, img.width as int, img.height as int);
            assert(wmask@[li] <= 0);
            assert(mask_src@[li] > 0);
            assert(wmask@[li] == 0);
        }
    }
    Ok(work)
}

/// The defect-mask file that calibrates a channel; only the three primary
/// channels have one.
fn determine_mask_file(camera: Camera) -> (r: Result<&'static str, Error>)
    ensures
        r is Ok <==> (camera == Camera::RED || camera == Camera::GREEN || camera == Camera::BLUE),
        r matches Err(e) ==> e == Error::UnsupportedChannel,
{
    match camera {
        Camera::RED => Ok("junocam_inpaint_mask_pj32_v1_red.png"),
        Camera::GREEN => Ok("junocam_inpaint_mask_pj32_v1_green.png"),
        Camera::BLUE => Ok("junocam_inpaint_mask_pj32_v1_blue.png"),
        _ => Err(Error::UnsupportedChannel),
    }
}

/// Whether defect-mask infill is available for a channel: exactly the
/// red, green and blue channels carry a mask.
pub fn inpaint_supported_for_camera(camera: Camera) -> (r: bool)
    ensures
        r == (camera == Camera::RED || camera == Camera::GREEN || camera == Camera::BLUE),
{
    let r = determine_mask_file(camera);
    match r {
        Ok(_) => true,
        Err(_) => false,
    }
}

} // verus!
