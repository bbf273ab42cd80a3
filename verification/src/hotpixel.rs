//! Windowed hot-pixel detection and replacement.
//!
//! Each sample is compared against the statistics of the square window
//! centered on it (the center itself excluded): a sample that exceeds the
//! window mean by more than `threshold` standard deviations is replaced by
//! that mean. The standard-deviation comparison is carried out exactly on
//! integers by comparing squares, so no rounding enters the decision.

use vstd::prelude::*;

use crate::buffer::{raster_index, ImageBuffer, Ratio};
use crate::error::Error;

verus! {

/// Ceiling on samples handed to the detector; window sums of such samples
/// stay comfortably inside the machine arithmetic.
pub const HP_SAMPLE_CEIL: i64 = 0xffff_ffff;

/// Largest accepted window side length.
pub const HP_MAX_WINDOW: usize = 15;

/// Largest accepted threshold numerator and denominator.
pub const HP_MAX_THRESHOLD: i64 = 0xffff;

/// One window cell's sample, zero off the raster.
pub open spec fn hp_cell(b: &ImageBuffer, x: int, y: int) -> int {
    if b.in_bounds(x, y) {
        b.sample_at(x, y) as int
    } else {
        0
    }
}

/// One window cell's presence, zero off the raster.
pub open spec fn hp_cell_cnt(b: &ImageBuffer, x: int, y: int) -> int {
    if b.in_bounds(x, y) {
        1
    } else {
        0
    }
}

/// One window cell's squared sample, zero off the raster.
pub open spec fn hp_cell_sq(b: &ImageBuffer, x: int, y: int) -> int {
    if b.in_bounds(x, y) {
        b.sample_at(x, y) * b.sample_at(x, y)
    } else {
        0
    }
}

/// Sum of `n` cells of row `y` starting at `x0`.
pub open spec fn hp_row_sum(b: &ImageBuffer, x0: int, y: int, n: nat) -> int
    decreases n,
{
    if n == 0 {
        0
    } else {
        hp_row_sum(b, x0, y, (n - 1) as nat) + hp_cell(b, x0 + n - 1, y)
    }
}

/// Count of on-raster cells among `n` cells of row `y` starting at `x0`.
pub open spec fn hp_row_cnt(b: &ImageBuffer, x0: int, y: int, n: nat) -> int
    decreases n,
{
    if n == 0 {
        0
    } else {
        hp_row_cnt(b, x0, y, (n - 1) as nat) + hp_cell_cnt(b, x0 + n - 1, y)
    }
}

/// Sum of squares of `n` cells of row `y` starting at `x0`.
pub open spec fn hp_row_sq(b: &ImageBuffer, x0: int, y: int, n: nat) -> int
    decreases n,
{
    if n == 0 {
        0
    } else {
        hp_row_sq(b, x0, y, (n - 1) as nat) + hp_cell_sq(b, x0 + n - 1, y)
    }
}

/// Sum over an `n`-wide, `m`-tall rectangle with top-left `(x0, y0)`.
pub open spec fn hp_rect_sum(b: &ImageBuffer, x0: int, y0: int, n: nat, m: nat) -> int
    decreases m,
{
    if m == 0 {
        0
    } else {
        hp_rect_sum(b, x0, y0, n, (m - 1) as nat) + hp_row_sum(b, x0, y0 + m - 1, n)
    }
}

/// Count of on-raster cells of the rectangle.
pub open spec fn hp_rect_cnt(b: &ImageBuffer, x0: int, y0: int, n: nat, m: nat) -> int
    decreases m,
{
    if m == 0 {
        0
    } else {
        hp_rect_cnt(b, x0, y0, n, (m - 1) as nat) + hp_row_cnt(b, x0, y0 + m - 1, n)
    }
}

/// Sum of squares over the rectangle.
pub open spec fn hp_rect_sq(b: &ImageBuffer, x0: int, y0: int, n: nat, m: nat) -> int
    decreases m,
{
    if m == 0 {
        0
    } else {
        hp_rect_sq(b, x0, y0, n, (m - 1) as nat) + hp_row_sq(b, x0, y0 + m - 1, n)
    }
}

/// Every sample is within `[0, HP_SAMPLE_CEIL]`.
pub open spec fn hp_samples_ok(b: &ImageBuffer) -> bool {
    forall|i: int| 0 <= i < b@.len() ==> 0 <= #[trigger] b@[i] <= HP_SAMPLE_CEIL
}

/// Row statistics are nonnegative and bounded by the cell count.
proof fn lemma_hp_row_bounds(b: &ImageBuffer, x0: int, y: int, n: nat)
    requires
        b.wf(),
        hp_samples_ok(b),
    ensures
        0 <= hp_row_cnt(b, x0, y, n) <= n,
        0 <= hp_row_sum(b, x0, y, n) <= hp_row_cnt(b, x0, y, n) * HP_SAMPLE_CEIL,
        0 <= hp_row_sq(b, x0, y, n) <= hp_row_cnt(b, x0, y, n) * (HP_SAMPLE_CEIL
            * HP_SAMPLE_CEIL),
    decreases n,
{
    if n > 0 {
        lemma_hp_row_bounds(b, x0, y, (n - 1) as nat);
        let x = x0 + n - 1;
        if b.in_bounds(x, y) {
            crate::buffer::lemma_raster_index_bound(x, y, b.width as int, b.height as int);
            let s = b.sample_at(x, y) as int;
            assert(0 <= s * s <= HP_SAMPLE_CEIL * HP_SAMPLE_CEIL) by (nonlinear_arith)
                requires
                    0 <= s <= HP_SAMPLE_CEIL,
            ;
        }
        assert((hp_row_cnt(b, x0, y, (n - 1) as nat) + 1) * HP_SAMPLE_CEIL == hp_row_cnt(b, x0, y,
            (n - 1) as nat) * HP_SAMPLE_CEIL + HP_SAMPLE_CEIL) by (nonlinear_arith);
        assert((hp_row_cnt(b, x0, y, (n - 1) as nat) + 1) * (HP_SAMPLE_CEIL * HP_SAMPLE_CEIL)
            == hp_row_cnt(b, x0, y, (n - 1) as nat) * (HP_SAMPLE_CEIL * HP_SAMPLE_CEIL)
            + HP_SAMPLE_CEIL * HP_SAMPLE_CEIL) by (nonlinear_arith);
    }
}

/// Rectangle statistics are nonnegative and bounded by the cell count.
proof fn lemma_hp_rect_bounds(b: &ImageBuffer, x0: int, y0: int, n: nat, m: nat)
    requires
        b.wf(),
        hp_samples_ok(b),
    ensures
        0 <= hp_rect_cnt(b, x0, y0, n, m) <= n * m,
        0 <= hp_rect_sum(b, x0, y0, n, m) <= hp_rect_cnt(b, x0, y0, n, m) * HP_SAMPLE_CEIL,
        0 <= hp_rect_sq(b, x0, y0, n, m) <= hp_rect_cnt(b, x0, y0, n, m) * (HP_SAMPLE_CEIL
            * HP_SAMPLE_CEIL),
    decreases m,
{
    if m == 0 {
        assert(n * 0 == 0) by (nonlinear_arith);
    } else {
        lemma_hp_rect_bounds(b, x0, y0, n, (m - 1) as nat);
        lemma_hp_row_bounds(b, x0, y0 + m - 1, n);
        assert(n * m == n * (m - 1) + n) by (nonlinear_arith);
        let c0 = hp_rect_cnt(b, x0, y0, n, (m - 1) as nat);
        let c1 = hp_row_cnt(b, x0, y0 + m - 1, n);
        assert((c0 + c1) * HP_SAMPLE_CEIL == c0 * HP_SAMPLE_CEIL + c1 * HP_SAMPLE_CEIL)
            by (nonlinear_arith);
        assert((c0 + c1) * (HP_SAMPLE_CEIL * HP_SAMPLE_CEIL) == c0 * (HP_SAMPLE_CEIL
            * HP_SAMPLE_CEIL) + c1 * (HP_SAMPLE_CEIL * HP_SAMPLE_CEIL)) by (nonlinear_arith);
    }
}

/// Mean of the window cells around `(x, y)` (center excluded), truncated;
/// the window spans `half` cells on each side.
pub open spec fn hp_neighbor_mean(b: &ImageBuffer, x: int, y: int, half: int) -> int {
    let n = (2 * half + 1) as nat;
    let sum = hp_rect_sum(b, x - half, y - half, n, n) - b.sample_at(x, y);
    let cnt = hp_rect_cnt(b, x - half, y - half, n, n) - 1;
    if cnt <= 0 {
        b.sample_at(x, y) as int
    } else {
        sum / cnt
    }
}

/// The hot-pixel criterion: the sample exceeds its neighbor mean, and the
/// squared excess exceeds `threshold^2` times the neighbors' variance.
pub open spec fn spec_is_hot(
    b: &ImageBuffer,
    x: int,
    y: int,
    half: int,
    num: i64,
    den: i64,
) -> bool {
    let n = (2 * half + 1) as nat;
    let sum = hp_rect_sum(b, x - half, y - half, n, n) - b.sample_at(x, y);
    let cnt = hp_rect_cnt(b, x - half, y - half, n, n) - 1;
    let sq = hp_rect_sq(b, x - half, y - half, n, n) - b.sample_at(x, y) * b.sample_at(x, y);
    if cnt <= 0 {
        false
    } else {
        let m = sum / cnt;
        let d = b.sample_at(x, y) - m;
        let varc = sq - 2 * m * sum + cnt * m * m;
        d > 0 && d * d * cnt * (den * den) > num * num * varc
    }
}

/// The value a cell carries after hot-pixel correction: the neighbor mean
/// when the cell is hot, the original sample otherwise.
pub open spec fn spec_hp_value(b: &ImageBuffer, x: int, y: int, half: int, num: i64,
    den: i64) -> i64 {
    if spec_is_hot(b, x, y, half, num, den) {
        hp_neighbor_mean(b, x, y, half) as i64
    } else {
        b.sample_at(x, y)
    }
}

/// Reads a cell, zero off the raster.
fn hp_read(b: &ImageBuffer, x: i64, y: i64) -> (r: i64)
    requires
        b.wf(),
        b.width < i64::MAX,
        b.height < i64::MAX,
    ensures
        r == hp_cell(b, x as int, y as int),
        hp_cell_cnt(b, x as int, y as int) == (if b.in_bounds(x as int, y as int) {
            1int
        } else {
            0int
        }),
{
    if x >= 0 && y >= 0 && x < (b.width as i64) && y < (b.height as i64) {
        proof {
            crate::buffer::lemma_raster_index_bound(x as int, y as int, b.width as int,
                b.height as int);
        }
        b.buffer[(y as usize) * b.width + (x as usize)]
    } else {
        0
    }
}

/// Sum, count and square sum of the window centered on `(x, y)`.
fn hp_window_stats(b: &ImageBuffer, x: usize, y: usize, half: usize) -> (r: (i64, i64, i128))
    requires
        b.wf(),
        hp_samples_ok(b),
        b.width < 0x4000_0000_0000_0000,
        b.height < 0x4000_0000_0000_0000,
        b.in_bounds(x as int, y as int),
        half <= 7,
    ensures
        ({
            let n = (2 * half + 1) as nat;
            let x0 = x - half;
            let y0 = y - half;
            &&& r.0 == hp_rect_sum(b, x0, y0, n, n)
            &&& r.1 == hp_rect_cnt(b, x0, y0, n, n)
            &&& r.2 == hp_rect_sq(b, x0, y0, n, n)
            &&& 0 <= r.1 <= 225
            &&& 0 <= r.0 <= r.1 * HP_SAMPLE_CEIL
            &&& 0 <= r.2 <= r.1 * (HP_SAMPLE_CEIL * HP_SAMPLE_CEIL)
        }),
{
    let n: usize = 2 * half + 1;
    let x0: i64 = (x as i64) - (half as i64);
    let y0: i64 = (y as i64) - (half as i64);
    let ghost gx0 = x0 as int;
    let ghost gy0 = y0 as int;
    let mut sum: i64 = 0;
    let mut cnt: i64 = 0;
    let mut sq: i128 = 0;
    let mut j: usize = 0;
    proof {
        lemma_hp_rect_bounds(b, gx0, gy0, n as nat, n as nat);
    }
    while j < n
        invariant
            j <= n,
            n == 2 * half + 1,
            half <= 7,
            b.wf(),
            hp_samples_ok(b),
            b.width < 0x4000_0000_0000_0000,
            b.height < 0x4000_0000_0000_0000,
            x < b.width,
            y < b.height,
            gx0 == x - half,
            gy0 == y - half,
            x0 == gx0,
            y0 == gy0,
            sum == hp_rect_sum(b, gx0, gy0, n as nat, j as nat),
            cnt == hp_rect_cnt(b, gx0, gy0, n as nat, j as nat),
            sq == hp_rect_sq(b, gx0, gy0, n as nat, j as nat),
            0 <= cnt <= n * j,
            0 <= sum <= cnt * HP_SAMPLE_CEIL,
            0 <= sq <= cnt * (HP_SAMPLE_CEIL * HP_SAMPLE_CEIL),
        decreases n - j,
    {
        let yy: i64 = y0 + (j as i64);
        let mut rsum: i64 = 0;
        let mut rcnt: i64 = 0;
        let mut rsq: i128 = 0;
        let mut i: usize = 0;
        proof {
            lemma_hp_row_bounds(b, gx0, yy as int, n as nat);
            lemma_hp_rect_bounds(b, gx0, gy0, n as nat, j as nat);
        }
        while i < n
            invariant
                i <= n,
                n == 2 * half + 1,
                half <= 7,
                b.wf(),
                hp_samples_ok(b),
                b.width < 0x4000_0000_0000_0000,
                b.height < 0x4000_0000_0000_0000,
                x < b.width,
                y < b.height,
                x0 == gx0,
                gx0 == x - half,
                yy == gy0 + j,
                gy0 == y - half,
                j < n,
                rsum == hp_row_sum(b, gx0, yy as int, i as nat),
                rcnt == hp_row_cnt(b, gx0, yy as int, i as nat),
                rsq == hp_row_sq(b, gx0, yy as int, i as nat),
                0 <= rcnt <= i,
                0 <= rsum <= rcnt * HP_SAMPLE_CEIL,
                0 <= rsq <= rcnt * (HP_SAMPLE_CEIL * HP_SAMPLE_CEIL),
            decreases n - i,
        {
            let xx: i64 = x0 + (i as i64);
            let v = hp_read(b, xx, yy);
            proof {
                if b.in_bounds(xx as int, yy as int) {
                    crate::buffer::lemma_raster_index_bound(xx as int, yy as int, b.width as int,
                        b.height as int);
                    assert(0 <= v * v <= HP_SAMPLE_CEIL * HP_SAMPLE_CEIL) by (nonlinear_arith)
                        requires
                            0 <= v <= HP_SAMPLE_CEIL,
                    ;
                } else {
                    assert(v == 0);
                }
                assert((rcnt + 1) * HP_SAMPLE_CEIL == rcnt * HP_SAMPLE_CEIL + HP_SAMPLE_CEIL)
                    by (nonlinear_arith);
                assert((rcnt + 1) * (HP_SAMPLE_CEIL * HP_SAMPLE_CEIL) == rcnt * (HP_SAMPLE_CEIL
                    * HP_SAMPLE_CEIL) + HP_SAMPLE_CEIL * HP_SAMPLE_CEIL) by (nonlinear_arith);
            }
            rsum = rsum + v;
            rsq = rsq + (v as i128) * (v as i128);
            if x0 + (i as i64) >= 0 && yy >= 0 && xx < (b.width as i64) && yy < (b.height as i64) {
                rcnt = rcnt + 1;
            }
            i = i + 1;
        }
        proof {
            assert((cnt + rcnt) * HP_SAMPLE_CEIL == cnt * HP_SAMPLE_CEIL + rcnt * HP_SAMPLE_CEIL)
                by (nonlinear_arith);
            assert((cnt + rcnt) * (HP_SAMPLE_CEIL * HP_SAMPLE_CEIL) == cnt * (HP_SAMPLE_CEIL
                * HP_SAMPLE_CEIL) + rcnt * (HP_SAMPLE_CEIL * HP_SAMPLE_CEIL))
                by (nonlinear_arith);
            assert(n * (j + 1) == n * j + n) by (nonlinear_arith);
            assert(n as int * j as int <= 210) by (nonlinear_arith)
                requires
                    n <= 15,
                    j < n,
            ;
        }
        sum = sum + rsum;
        cnt = cnt + rcnt;
        sq = sq + rsq;
        j = j + 1;
    }
    proof {
        assert(n as int * n as int <= 225) by (nonlinear_arith)
            requires
                n <= 15,
        ;
    }
    (sum, cnt, sq)
}

/// A row's sum and count dominate any one of its cells.
proof fn lemma_hp_row_lower(b: &ImageBuffer, x0: int, y: int, n: nat, k: int)
    requires
        b.wf(),
        hp_samples_ok(b),
        0 <= k < n,
    ensures
        hp_row_sum(b, x0, y, n) >= hp_cell(b, x0 + k, y),
        hp_row_cnt(b, x0, y, n) >= hp_cell_cnt(b, x0 + k, y),
    decreases n,
{
    lemma_hp_row_bounds(b, x0, y, (n - 1) as nat);
    if k < n - 1 {
        lemma_hp_row_lower(b, x0, y, (n - 1) as nat, k);
        if b.in_bounds(x0 + n - 1, y) {
            crate::buffer::lemma_raster_index_bound(x0 + n - 1, y, b.width as int,
                b.height as int);
        }
    }
}

/// A rectangle's sum and count dominate any one of its cells.
proof fn lemma_hp_rect_lower(b: &ImageBuffer, x0: int, y0: int, n: nat, m: nat, kx: int, ky: int)
    requires
        b.wf(),
        hp_samples_ok(b),
        0 <= kx < n,
        0 <= ky < m,
    ensures
        hp_rect_sum(b, x0, y0, n, m) >= hp_cell(b, x0 + kx, y0 + ky),
        hp_rect_cnt(b, x0, y0, n, m) >= hp_cell_cnt(b, x0 + kx, y0 + ky),
    decreases m,
{
    lemma_hp_rect_bounds(b, x0, y0, n, (m - 1) as nat);
    lemma_hp_row_bounds(b, x0, y0 + m - 1, n);
    if ky == m - 1 {
        lemma_hp_row_lower(b, x0, y0 + m - 1, n, kx);
    } else {
        lemma_hp_rect_lower(b, x0, y0, n, (m - 1) as nat, kx, ky);
    }
}

/// Replaces detected hot pixels: each sample that exceeds the mean of its
/// surrounding window (the center excluded) by more than `threshold`
/// standard deviations is replaced by that mean; all other samples pass
/// through unchanged. The window spans `window_size / 2` cells on each side
/// of the pixel. Never fails.
pub fn hot_pixel_detection(buffer: &ImageBuffer, window_size: usize, threshold: &Ratio) -> (r:
    Result<ImageBuffer, Error>)
    requires
        buffer.wf(),
        hp_samples_ok(buffer),
        buffer.width < 0x4000_0000_0000_0000,
        buffer.height < 0x4000_0000_0000_0000,
        1 <= window_size <= HP_MAX_WINDOW,
        threshold.wf(),
        threshold.num <= HP_MAX_THRESHOLD,
        threshold.den <= HP_MAX_THRESHOLD,
    ensures
        r is Ok,
        r matches Ok(out) ==> {
            &&& out.wf()
            &&& out.width == buffer.width
            &&& out.height == buffer.height
            &&& hp_samples_ok(&out)
            &&& forall|x: int, y: int|
                out.in_bounds(x, y) ==> out.sample_at(x, y) == spec_hp_value(buffer, x, y,
                    (window_size / 2) as int, threshold.num, threshold.den)
        },
{
    let half = window_size / 2;
    let w = buffer.width;
    let h = buffer.height;
    let num = threshold.num;
    let den = threshold.den;
    let ghost gh = half as int;
    let mut v: Vec<i64> = Vec::new();
    let mut y: usize = 0;
    proof {
        assert(w as int * h as int == h as int * w as int) by (nonlinear_arith);
    }
    while y < h
        invariant
            y <= h,
            buffer.wf(),
            hp_samples_ok(buffer),
            buffer.width < 0x4000_0000_0000_0000,
            buffer.height < 0x4000_0000_0000_0000,
            w == buffer.width,
            h == buffer.height,
            half <= 7,
            gh == half as int,
            threshold.wf(),
            num == threshold.num,
            den == threshold.den,
            num <= HP_MAX_THRESHOLD,
            den <= HP_MAX_THRESHOLD,
            v@.len() == y * w,
            forall|i: int| 0 <= i < v@.len() ==> 0 <= #[trigger] v@[i] <= HP_SAMPLE_CEIL,
            forall|xx: int, yy: int|
                0 <= xx < w && 0 <= yy < y ==> #[trigger] v@[raster_index(xx, yy, w as int)]
                    == spec_hp_value(buffer, xx, yy, gh, num, den),
        decreases h - y,
    {
        let mut x: usize = 0;
        proof {
            vstd::arithmetic::mul::lemma_mul_inequality((y + 1) as int, h as int, w as int);
            assert((y + 1) as int * w as int == y * w + w) by (nonlinear_arith);
            assert(h as int * w as int == w as int * h as int) by (nonlinear_arith);
        }
        while x < w
            invariant
                x <= w,
                y < h,
                buffer.wf(),
                hp_samples_ok(buffer),
                buffer.width < 0x4000_0000_0000_0000,
                buffer.height < 0x4000_0000_0000_0000,
                w == buffer.width,
                h == buffer.height,
                half <= 7,
                gh == half as int,
                threshold.wf(),
                num == threshold.num,
                den == threshold.den,
                num <= HP_MAX_THRESHOLD,
                den <= HP_MAX_THRESHOLD,
                v@.len() == y * w + x,
                forall|i: int| 0 <= i < v@.len() ==> 0 <= #[trigger] v@[i] <= HP_SAMPLE_CEIL,
                forall|xx: int, yy: int|
                    0 <= xx < w && 0 <= yy < y ==> #[trigger] v@[raster_index(xx, yy, w as int)]
                        == spec_hp_value(buffer, xx, yy, gh, num, den),
                forall|xx: int|
                    0 <= xx < x ==> #[trigger] v@[raster_index(xx, y as int, w as int)]
                        == spec_hp_value(buffer, xx, y as int, gh, num, den),
            decreases w - x,
        {
            let c = hp_correct_cell(buffer, x, y, half, num, den);
            v.push(c);
            proof {
                assert forall|xx: int, yy: int|
                    0 <= xx < w && 0 <= yy < y implies #[trigger] v@[raster_index(xx, yy,
                    w as int)] == spec_hp_value(buffer, xx, yy, gh, num, den) by {
                    crate::buffer::lemma_raster_index_bound(xx, yy, w as int, y as int);
                    assert(w as int * y as int == y as int * w as int) by (nonlinear_arith);
                    assert(raster_index(xx, yy, w as int) < y * w);
                }
            }
            x = x + 1;
        }
        proof {
            assert forall|xx: int, yy: int|
                0 <= xx < w && 0 <= yy < y + 1 implies #[trigger] v@[raster_index(xx, yy,
                w as int)] == spec_hp_value(buffer, xx, yy, gh, num, den) by {
                if yy == y {
                    assert(v@[raster_index(xx, y as int, w as int)] == spec_hp_value(buffer, xx,
                        y as int, gh, num, den));
                } else {
                    assert(v@[raster_index(xx, yy, w as int)] == spec_hp_value(buffer, xx, yy, gh,
                        num, den));
                }
            }
        }
        y = y + 1;
    }
    Ok(ImageBuffer { buffer: v, width: w, height: h, empty: false })
}

/// The corrected value of one cell.
fn hp_correct_cell(buffer: &ImageBuffer, x: usize, y: usize, half: usize, num: i64, den: i64) -> (r:
    i64)
    requires
        buffer.wf(),
        hp_samples_ok(buffer),
        buffer.width < 0x4000_0000_0000_0000,
        buffer.height < 0x4000_0000_0000_0000,
        buffer.in_bounds(x as int, y as int),
        half <= 7,
        0 <= num <= HP_MAX_THRESHOLD,
        1 <= den <= HP_MAX_THRESHOLD,
    ensures
        r == spec_hp_value(buffer, x as int, y as int, half as int, num, den),
        0 <= r <= HP_SAMPLE_CEIL,
{
    let stats = hp_window_stats(buffer, x, y, half);
    proof {
        crate::buffer::lemma_raster_index_bound(x as int, y as int, buffer.width as int,
            buffer.height as int);
        lemma_hp_rect_lower(buffer, x as int - half, y as int - half, (2 * half + 1) as nat, (2
            * half + 1) as nat, half as int, half as int);
    }
    let s = buffer.buffer[y * buffer.width + x];
    let nsum: i64 = stats.0 - s;
    let ncnt: i64 = stats.1 - 1;
    if ncnt <= 0 {
        return s;
    }
    proof {
        crate::buffer::lemma_mul_abs_bound(s as int, s as int, HP_SAMPLE_CEIL as int,
            HP_SAMPLE_CEIL as int);
        vstd::arithmetic::mul::lemma_mul_inequality(stats.1 as int, 225, HP_SAMPLE_CEIL as int
            * HP_SAMPLE_CEIL);
        vstd::arithmetic::mul::lemma_mul_inequality(stats.1 as int, 225, HP_SAMPLE_CEIL as int);
    }
    let nsq: i128 = stats.2 - (s as i128) * (s as i128);
    let m: i64 = ((nsum as u64) / (ncnt as u64)) as i64;
    proof {
        vstd::arithmetic::div_mod::lemma_div_pos_is_pos(nsum as int, ncnt as int);
        vstd::arithmetic::div_mod::lemma_div_is_ordered_by_denominator(nsum as int, 1,
            ncnt as int);
        vstd::arithmetic::div_mod::lemma_div_basics(nsum as int);
    }
    let d: i128 = (s as i128) - (m as i128);
    proof {
        let bb: int = 0x100_0000_0000;
        crate::buffer::lemma_mul_abs_bound(m as int, nsum as int, bb, bb);
        crate::buffer::lemma_mul_abs_bound(2 * (m as int), nsum as int, 2 * bb, bb);
        crate::buffer::lemma_mul_abs_bound(m as int, m as int, bb, bb);
        crate::buffer::lemma_mul_abs_bound(ncnt as int, m as int, 256, bb);
        crate::buffer::lemma_mul_abs_bound(ncnt as int * m as int, m as int, 256 * bb, bb);
    }
    let varc: i128 = nsq - 2 * (m as i128) * (nsum as i128) + (ncnt as i128) * (m as i128) * (
    m as i128);
    proof {
        let dd: int = 0x200_0000_0000;
        crate::buffer::lemma_mul_abs_bound(d as int, d as int, dd, dd);
        crate::buffer::lemma_mul_abs_bound(d as int * d as int, ncnt as int, dd * dd, 256);
        crate::buffer::lemma_mul_abs_bound(den as int, den as int, 0x10000int, 0x10000int);
        crate::buffer::lemma_mul_abs_bound(d as int * d as int * ncnt as int,
            den as int * den as int, dd * dd * 256, 0x10000int * 0x10000);
        crate::buffer::lemma_mul_abs_bound(num as int, num as int, 0x10000int, 0x10000int);
        crate::buffer::lemma_mul_abs_bound(num as int * num as int, varc as int,
            0x10000int * 0x10000, 0x4000_0000_0000_0000_0000_0000int);
    }
    let lhs: i128 = d * d * (ncnt as i128) * ((den as i128) * (den as i128));
    let rhs: i128 = (num as i128) * (num as i128) * varc;
    if d > 0 && lhs > rhs {
        m
    } else {
        s
    }
}

} // verus!
