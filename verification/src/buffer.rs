//! A dense two-dimensional raster of integer samples.
//!
//! Every raster in the pipeline — raw framelet stacks, per-channel strips,
//! calibration references, defect masks and the output map — is an
//! [`ImageBuffer`]: row-major samples with bounds-checked access. Samples are
//! carried as `i64` values confined to a symmetric range so that the
//! arithmetic of every calibration step can be stated exactly; operations
//! that could leave the range saturate at its ends.

use vstd::prelude::*;

use crate::error::Error;

verus! {

/// Largest magnitude a sample may carry. Arithmetic saturates here rather
/// than wrapping, so a buffer stays well formed through any operation chain.
pub const SAMPLE_MAX: i64 = 0x1_0000_0000_0000;

/// Smallest value a sample may carry; the negative of [`SAMPLE_MAX`].
pub const SAMPLE_MIN: i64 = -0x1_0000_0000_0000;

/// A sample value lies within the representable range.
pub open spec fn in_sample_range(v: i64) -> bool {
    SAMPLE_MIN <= v && v <= SAMPLE_MAX
}

/// Saturate a mathematical result into the representable sample range.
pub open spec fn clamp_sample(v: int) -> i64 {
    if v > SAMPLE_MAX {
        SAMPLE_MAX
    } else if v < SAMPLE_MIN {
        SAMPLE_MIN
    } else {
        v as i64
    }
}

/// A dense row-major raster. The sample at column `x` of row `y` sits at
/// index `y * width + x` of the backing vector.
#[derive(Debug)]
pub struct ImageBuffer {
    pub buffer: Vec<i64>,
    pub width: usize,
    pub height: usize,
    pub empty: bool,
}

/// A horizontal/vertical displacement used by [`ImageBuffer::shift`].
#[derive(Debug)]
pub struct Offset {
    pub h: i32,
    pub v: i32,
}

/// The smallest and largest sample of a raster.
#[derive(Debug)]
pub struct MinMax {
    pub min: i64,
    pub max: i64,
}

impl View for ImageBuffer {
    type V = Seq<i64>;

    open spec fn view(&self) -> Seq<i64> {
        self.buffer@
    }
}

/// Index of coordinate `(x, y)` in a row-major raster of width `w`.
pub open spec fn raster_index(x: int, y: int, w: int) -> int {
    y * w + x
}

/// A row-major index stays below `w * h` for in-bounds coordinates.
pub proof fn lemma_raster_index_bound(x: int, y: int, w: int, h: int)
    requires
        0 <= x < w,
        0 <= y < h,
    ensures
        0 <= raster_index(x, y, w) < w * h,
        raster_index(x, y, w) == y * w + x,
{
    assert(y * w + x < w * h && 0 <= y * w) by (nonlinear_arith)
        requires
            0 <= x < w,
            0 <= y < h,
    ;
}

impl ImageBuffer {
    /// The raster is internally consistent: the backing vector matches the
    /// stated dimensions and every sample lies in the representable range.
    pub open spec fn wf(&self) -> bool {
        &&& self@.len() == self.width * self.height
        &&& self.width * self.height <= usize::MAX
        &&& forall|i: int| 0 <= i < self@.len() ==> in_sample_range(#[trigger] self@[i])
    }

    /// The coordinate addresses a sample of this raster.
    pub open spec fn in_bounds(&self, x: int, y: int) -> bool {
        0 <= x < self.width && 0 <= y < self.height
    }

    /// The sample this raster holds at `(x, y)`.
    pub open spec fn sample_at(&self, x: int, y: int) -> i64 {
        self@[raster_index(x, y, self.width as int)]
    }

    /// Creates a zero-filled raster of the requested dimensions.
    pub fn new(width: usize, height: usize) -> (r: Result<ImageBuffer, Error>)
        requires
            width * height <= usize::MAX,
        ensures
            r is Ok,
            r matches Ok(b) ==> {
                &&& b.wf()
                &&& b.width == width
                &&& b.height == height
                &&& b@ =~= Seq::new((width * height) as nat, |i: int| 0i64)
                &&& !b.spec_is_empty()
            },
    {
        let mut v: Vec<i64> = Vec::new();
        let n = width * height;
        let mut i: usize = 0;
        while i < n
            invariant
                i <= n,
                v@ =~= Seq::new(i as nat, |j: int| 0i64),
            decreases n - i,
        {
            v.push(0);
            i = i + 1;
        }
        Ok(ImageBuffer { buffer: v, width, height, empty: false })
    }

    /// Creates the empty raster: no samples, zero dimensions.
    pub fn new_empty() -> (r: Result<ImageBuffer, Error>)
        ensures
            r is Ok,
            r matches Ok(b) ==> b.wf() && b.width == 0 && b.height == 0 && b@.len() == 0
                && b.spec_is_empty(),
    {
        Ok(ImageBuffer { buffer: Vec::new(), width: 0, height: 0, empty: true })
    }

    /// Wraps sample data into a raster of the stated dimensions. Fails with
    /// a dimension-mismatch condition when the vector length disagrees.
    pub fn from_vec(v: Vec<i64>, width: usize, height: usize) -> (r: Result<ImageBuffer, Error>)
        requires
            forall|i: int| 0 <= i < v@.len() ==> in_sample_range(#[trigger] v@[i]),
        ensures
            r is Ok <==> v@.len() == width * height,
            r matches Ok(b) ==> {
                &&& b.wf()
                &&& b.width == width
                &&& b.height == height
                &&& b@ == v@
                &&& !b.spec_is_empty()
            },
            r matches Err(e) ==> e == Error::DimensionMismatch,
    {
        let len = v.len();
        match width.checked_mul(height) {
            Some(n) if n == len => Ok(ImageBuffer { buffer: v, width, height, empty: false }),
            _ => Err(Error::DimensionMismatch),
        }
    }

    /// Whether this raster was created as the empty raster.
    pub open spec fn spec_is_empty(&self) -> bool {
        self.empty
    }

    /// Reports whether this is the empty raster.
    pub fn is_empty(&self) -> (r: bool)
        ensures
            r == self.spec_is_empty(),
    {
        self.empty
    }

    /// Copies the raster, samples and dimensions alike.
    pub fn duplicate(&self) -> (r: ImageBuffer)
        requires
            self.wf(),
        ensures
            r.wf(),
            r@ == self@,
            r.width == self.width,
            r.height == self.height,
            r.spec_is_empty() == self.spec_is_empty(),
    {
        let n = self.buffer.len();
        let mut v: Vec<i64> = Vec::new();
        let mut i: usize = 0;
        while i < n
            invariant
                i <= n,
                n == self@.len(),
                v@.len() == i,
                forall|j: int| 0 <= j < i ==> v@[j] == self@[j],
            decreases n - i,
        {
            v.push(self.buffer[i]);
            i = i + 1;
        }
        proof {
            assert(v@ =~= self@);
        }
        ImageBuffer { buffer: v, width: self.width, height: self.height, empty: self.empty }
    }

    /// Reads the sample at `(x, y)`; fails with an invalid-coordinates
    /// condition exactly when the coordinate is out of bounds.
    pub fn get(&self, x: usize, y: usize) -> (r: Result<i64, Error>)
        requires
            self.wf(),
        ensures
            r is Ok <==> self.in_bounds(x as int, y as int),
            r matches Ok(v) ==> v == self.sample_at(x as int, y as int),
            r matches Err(e) ==> e == Error::InvalidCoordinates,
    {
        if x < self.width && y < self.height {
            proof {
                lemma_raster_index_bound(x as int, y as int, self.width as int,
                    self.height as int);
            }
            let index = y * self.width + x;
            Ok(self.buffer[index])
        } else {
            Err(Error::InvalidCoordinates)
        }
    }

    /// Writes `val` at `(x, y)`; fails with an invalid-coordinates condition
    /// exactly when the coordinate is out of bounds, leaving the raster
    /// unchanged in that case.
    pub fn put(&mut self, x: usize, y: usize, val: i64) -> (r: Result<(), Error>)
        requires
            old(self).wf(),
            in_sample_range(val),
        ensures
            final(self).wf(),
            final(self).width == old(self).width,
            final(self).height == old(self).height,
            final(self).spec_is_empty() == old(self).spec_is_empty(),
            r is Ok <==> old(self).in_bounds(x as int, y as int),
            r is Ok ==> final(self)@ == old(self)@.update(
                raster_index(x as int, y as int, old(self).width as int), val),
            r is Err ==> final(self)@ == old(self)@,
            r matches Err(e) ==> e == Error::InvalidCoordinates,
    {
        if x < self.width && y < self.height {
            proof {
                lemma_raster_index_bound(x as int, y as int, self.width as int,
                    self.height as int);
            }
            let index = y * self.width + x;
            self.buffer.set(index, val);
            Ok(())
        } else {
            Err(Error::InvalidCoordinates)
        }
    }

    /// Writes a 16-bit sample at `(x, y)`.
    pub fn put_u16(&mut self, x: usize, y: usize, val: u16) -> (r: Result<(), Error>)
        requires
            old(self).wf(),
        ensures
            final(self).wf(),
            final(self).width == old(self).width,
            final(self).height == old(self).height,
            final(self).spec_is_empty() == old(self).spec_is_empty(),
            r is Ok <==> old(self).in_bounds(x as int, y as int),
            r is Ok ==> final(self)@ == old(self)@.update(
                raster_index(x as int, y as int, old(self).width as int), val as i64),
            r is Err ==> final(self)@ == old(self)@,
            r matches Err(e) ==> e == Error::InvalidCoordinates,
    {
        self.put(x, y, val as i64)
    }
}

/// A positive rational factor `num / den` by which samples are scaled.
/// Channel weights and flat-field gains are expressed this way.
#[derive(Debug, Clone, Copy)]
pub struct Ratio {
    pub num: i64,
    pub den: i64,
}

impl Ratio {
    /// The factor is usable: both parts representable, denominator positive.
    pub open spec fn wf(&self) -> bool {
        &&& 0 <= self.num <= SAMPLE_MAX
        &&& 0 < self.den <= SAMPLE_MAX
    }

    /// Creates the factor `num / den`; the denominator must be positive.
    pub fn new(num: i64, den: i64) -> (r: Ratio)
        requires
            0 <= num <= SAMPLE_MAX,
            0 < den <= SAMPLE_MAX,
        ensures
            r.wf(),
            r.num == num,
            r.den == den,
    {
        Ratio { num, den }
    }
}

/// Absolute value of a mathematical integer.
pub open spec fn abs_int(v: int) -> int {
    if v < 0 {
        -v
    } else {
        v
    }
}

/// Division truncating toward zero, as Rust's `/` computes it.
pub open spec fn div_trunc(a: int, b: int) -> int
    recommends
        b != 0,
{
    if (a < 0) != (b < 0) {
        -(abs_int(a) / abs_int(b))
    } else {
        abs_int(a) / abs_int(b)
    }
}

/// Quotient of two samples; a zero divisor yields zero rather than failing.
pub open spec fn div_or_zero(a: i64, b: i64) -> i64 {
    if b == 0 {
        0
    } else {
        div_trunc(a as int, b as int) as i64
    }
}

/// Difference floored at zero (radiance is never negative), saturated at
/// the top of the sample range.
pub open spec fn sub_floor(a: i64, b: i64) -> i64 {
    if a - b < 0 {
        0
    } else {
        clamp_sample(a - b)
    }
}

/// The product of two magnitude-bounded integers is magnitude-bounded.
pub proof fn lemma_mul_abs_bound(a: int, b: int, m: int, n: int)
    requires
        abs_int(a) <= m,
        abs_int(b) <= n,
    ensures
        abs_int(a * b) <= m * n,
{
    assert(abs_int(a * b) <= m * n) by (nonlinear_arith)
        requires
            abs_int(a) <= m,
            abs_int(b) <= n,
    ;
}

/// Elementwise sum, saturated into the sample range.
pub open spec fn spec_add(a: Seq<i64>, b: Seq<i64>) -> Seq<i64> {
    Seq::new(a.len(), |i: int| clamp_sample(a[i] + b[i]))
}

/// Elementwise difference floored at zero.
pub open spec fn spec_subtract(a: Seq<i64>, b: Seq<i64>) -> Seq<i64> {
    Seq::new(a.len(), |i: int| sub_floor(a[i], b[i]))
}

/// Elementwise product, saturated into the sample range.
pub open spec fn spec_multiply(a: Seq<i64>, b: Seq<i64>) -> Seq<i64> {
    Seq::new(a.len(), |i: int| clamp_sample(a[i] * b[i]))
}

/// Elementwise quotient; cells with a zero divisor become zero.
pub open spec fn spec_divide(a: Seq<i64>, b: Seq<i64>) -> Seq<i64> {
    Seq::new(a.len(), |i: int| div_or_zero(a[i], b[i]))
}

/// Each cell replaced by `k` divided by the cell; zero cells become zero.
pub open spec fn spec_divide_into(k: i64, a: Seq<i64>) -> Seq<i64> {
    Seq::new(a.len(), |i: int| div_or_zero(k, a[i]))
}

/// A sample scaled by `num / den`, truncating toward zero, saturated.
pub open spec fn scale_sample(v: i64, num: i64, den: i64) -> i64 {
    clamp_sample(div_trunc(v * num, den as int))
}

/// Elementwise scaling by the rational factor `num / den`.
pub open spec fn spec_scale(a: Seq<i64>, num: i64, den: i64) -> Seq<i64> {
    Seq::new(a.len(), |i: int| scale_sample(a[i], num, den))
}

/// Saturates an `i64` into the sample range.
fn clamp_exec(v: i64) -> (r: i64)
    ensures
        r == clamp_sample(v as int),
{
    if v > SAMPLE_MAX {
        SAMPLE_MAX
    } else if v < SAMPLE_MIN {
        SAMPLE_MIN
    } else {
        v
    }
}

/// Truncating quotient of two range-bounded samples; zero when `b` is zero.
fn div_samples(a: i64, b: i64) -> (r: i64)
    requires
        in_sample_range(a),
        in_sample_range(b),
    ensures
        r == div_or_zero(a, b),
        in_sample_range(r),
{
    if b == 0 {
        return 0;
    }
    let ua: u64 = if a < 0 {
        (-a) as u64
    } else {
        a as u64
    };
    let ub: u64 = if b < 0 {
        (-b) as u64
    } else {
        b as u64
    };
    let q = ua / ub;
    proof {
        vstd::arithmetic::div_mod::lemma_div_is_ordered_by_denominator(ua as int, 1, ub as int);
        vstd::arithmetic::div_mod::lemma_div_basics(ua as int);
    }
    let qi = q as i64;
    if (a < 0) != (b < 0) {
        -qi
    } else {
        qi
    }
}

/// Scales a sample by `num / den` with a wide intermediate product,
/// truncating toward zero and saturating into the sample range.
fn scale_sample_exec(v: i64, num: i64, den: i64) -> (r: i64)
    requires
        in_sample_range(v),
        in_sample_range(num),
        0 < den <= SAMPLE_MAX,
    ensures
        r == scale_sample(v, num, den),
        in_sample_range(r),
{
    proof {
        lemma_mul_abs_bound(v as int, num as int, SAMPLE_MAX as int, SAMPLE_MAX as int);
    }
    let p: i128 = (v as i128) * (num as i128);
    let up: u128 = if p < 0 {
        (-p) as u128
    } else {
        p as u128
    };
    let q: u128 = up / (den as u128);
    let qc: i64 = if q > (SAMPLE_MAX as u128) {
        SAMPLE_MAX
    } else {
        q as i64
    };
    if p < 0 {
        -qc
    } else {
        qc
    }
}

impl ImageBuffer {
    /// The two rasters have identical dimensions.
    pub open spec fn same_dims(&self, other: &ImageBuffer) -> bool {
        self.width == other.width && self.height == other.height
    }

    /// Elementwise sum of two rasters of equal dimensions; fails with a
    /// size-mismatch condition exactly when the dimensions differ.
    pub fn add(&self, other: &ImageBuffer) -> (r: Result<ImageBuffer, Error>)
        requires
            self.wf(),
            other.wf(),
        ensures
            r is Ok <==> self.same_dims(other),
            r matches Ok(b) ==> b.wf() && b.width == self.width && b.height == self.height
                && b@ == spec_add(self@, other@),
            r matches Err(e) ==> e == Error::DimensionMismatch,
    {
        if self.width != other.width || self.height != other.height {
            return Err(Error::DimensionMismatch);
        }
        let n = self.buffer.len();
        let mut v: Vec<i64> = Vec::new();
        let mut i: usize = 0;
        while i < n
            invariant
                i <= n,
                n == self@.len(),
                other@.len() == n,
                forall|j: int| 0 <= j < n ==> in_sample_range(#[trigger] self@[j]),
                forall|j: int| 0 <= j < n ==> in_sample_range(#[trigger] other@[j]),
                v@.len() == i,
                forall|j: int| 0 <= j < i ==> v@[j] == clamp_sample(self@[j] + other@[j]),
            decreases n - i,
        {
            let s = self.buffer[i] + other.buffer[i];
            v.push(clamp_exec(s));
            i = i + 1;
        }
        proof {
            assert(v@ =~= spec_add(self@, other@));
        }
        Ok(ImageBuffer { buffer: v, width: self.width, height: self.height, empty: false })
    }

    /// Elementwise difference, floored at zero; fails with a size-mismatch
    /// condition exactly when the dimensions differ.
    pub fn subtract(&self, other: &ImageBuffer) -> (r: Result<ImageBuffer, Error>)
        requires
            self.wf(),
            other.wf(),
        ensures
            r is Ok <==> self.same_dims(other),
            r matches Ok(b) ==> b.wf() && b.width == self.width && b.height == self.height
                && b@ == spec_subtract(self@, other@),
            r matches Err(e) ==> e == Error::DimensionMismatch,
    {
        if self.width != other.width || self.height != other.height {
            return Err(Error::DimensionMismatch);
        }
        let n = self.buffer.len();
        let mut v: Vec<i64> = Vec::new();
        let mut i: usize = 0;
        while i < n
            invariant
                i <= n,
                n == self@.len(),
                other@.len() == n,
                forall|j: int| 0 <= j < n ==> in_sample_range(#[trigger] self@[j]),
                forall|j: int| 0 <= j < n ==> in_sample_range(#[trigger] other@[j]),
                v@.len() == i,
                forall|j: int| 0 <= j < i ==> v@[j] == sub_floor(self@[j], other@[j]),
            decreases n - i,
        {
            let d = self.buffer[i] - other.buffer[i];
            v.push(if d < 0 { 0 } else { clamp_exec(d) });
            i = i + 1;
        }
        proof {
            assert(v@ =~= spec_subtract(self@, other@));
        }
        Ok(ImageBuffer { buffer: v, width: self.width, height: self.height, empty: false })
    }

    /// Elementwise product, saturated; fails with a size-mismatch condition
    /// exactly when the dimensions differ.
    pub fn multiply(&self, other: &ImageBuffer) -> (r: Result<ImageBuffer, Error>)
        requires
            self.wf(),
            other.wf(),
        ensures
            r is Ok <==> self.same_dims(other),
            r matches Ok(b) ==> b.wf() && b.width == self.width && b.height == self.height
                && b@ == spec_multiply(self@, other@),
            r matches Err(e) ==> e == Error::DimensionMismatch,
    {
        if self.width != other.width || self.height != other.height {
            return Err(Error::DimensionMismatch);
        }
        let n = self.buffer.len();
        let mut v: Vec<i64> = Vec::new();
        let mut i: usize = 0;
        while i < n
            invariant
                i <= n,
                n == self@.len(),
                other@.len() == n,
                forall|j: int| 0 <= j < n ==> in_sample_range(#[trigger] self@[j]),
                forall|j: int| 0 <= j < n ==> in_sample_range(#[trigger] other@[j]),
                v@.len() == i,
                forall|j: int| 0 <= j < i ==> v@[j] == clamp_sample(self@[j] * other@[j]),
            decreases n - i,
        {
            proof {
                lemma_mul_abs_bound(self@[i as int] as int, other@[i as int] as int,
                    SAMPLE_MAX as int, SAMPLE_MAX as int);
            }
            let p: i128 = (self.buffer[i] as i128) * (other.buffer[i] as i128);
            let c: i64 = if p > (SAMPLE_MAX as i128) {
                SAMPLE_MAX
            } else if p < (SAMPLE_MIN as i128) {
                SAMPLE_MIN
            } else {
                p as i64
            };
            v.push(c);
            i = i + 1;
        }
        proof {
            assert(v@ =~= spec_multiply(self@, other@));
        }
        Ok(ImageBuffer { buffer: v, width: self.width, height: self.height, empty: false })
    }

    /// Elementwise quotient; a cell with a zero divisor yields zero rather
    /// than failing. Fails with a size-mismatch condition exactly when the
    /// dimensions differ.
    pub fn divide(&self, other: &ImageBuffer) -> (r: Result<ImageBuffer, Error>)
        requires
            self.wf(),
            other.wf(),
        ensures
            r is Ok <==> self.same_dims(other),
            r matches Ok(b) ==> b.wf() && b.width == self.width && b.height == self.height
                && b@ == spec_divide(self@, other@),
            r matches Err(e) ==> e == Error::DimensionMismatch,
    {
        if self.width != other.width || self.height != other.height {
            return Err(Error::DimensionMismatch);
        }
        let n = self.buffer.len();
        let mut v: Vec<i64> = Vec::new();
        let mut i: usize = 0;
        while i < n
            invariant
                i <= n,
                n == self@.len(),
                other@.len() == n,
                forall|j: int| 0 <= j < n ==> in_sample_range(#[trigger] self@[j]),
                forall|j: int| 0 <= j < n ==> in_sample_range(#[trigger] other@[j]),
                v@.len() == i,
                forall|j: int| 0 <= j < i ==> v@[j] == div_or_zero(self@[j], other@[j]),
            decreases n - i,
        {
            v.push(div_samples(self.buffer[i], other.buffer[i]));
            i = i + 1;
        }
        proof {
            assert(v@ =~= spec_divide(self@, other@));
        }
        Ok(ImageBuffer { buffer: v, width: self.width, height: self.height, empty: false })
    }

    /// Replaces each cell by `divisor` divided by the cell; zero cells yield
    /// zero rather than failing.
    pub fn divide_into(&self, divisor: i64) -> (r: Result<ImageBuffer, Error>)
        requires
            self.wf(),
            in_sample_range(divisor),
        ensures
            r is Ok,
            r matches Ok(b) ==> b.wf() && b.width == self.width && b.height == self.height
                && b@ == spec_divide_into(divisor, self@),
    {
        let n = self.buffer.len();
        let mut v: Vec<i64> = Vec::new();
        let mut i: usize = 0;
        while i < n
            invariant
                i <= n,
                n == self@.len(),
                in_sample_range(divisor),
                forall|j: int| 0 <= j < n ==> in_sample_range(#[trigger] self@[j]),
                v@.len() == i,
                forall|j: int| 0 <= j < i ==> v@[j] == div_or_zero(divisor, self@[j]),
            decreases n - i,
        {
            v.push(div_samples(divisor, self.buffer[i]));
            i = i + 1;
        }
        proof {
            assert(v@ =~= spec_divide_into(divisor, self@));
        }
        Ok(ImageBuffer { buffer: v, width: self.width, height: self.height, empty: false })
    }

    /// Scales every sample by the rational factor, truncating toward zero.
    pub fn scale(&self, factor: &Ratio) -> (r: Result<ImageBuffer, Error>)
        requires
            self.wf(),
            factor.wf(),
        ensures
            r is Ok,
            r matches Ok(b) ==> b.wf() && b.width == self.width && b.height == self.height
                && b@ == spec_scale(self@, factor.num, factor.den),
    {
        let n = self.buffer.len();
        let mut v: Vec<i64> = Vec::new();
        let mut i: usize = 0;
        while i < n
            invariant
                i <= n,
                n == self@.len(),
                factor.wf(),
                forall|j: int| 0 <= j < n ==> in_sample_range(#[trigger] self@[j]),
                v@.len() == i,
                forall|j: int| 0 <= j < i ==> v@[j] == scale_sample(self@[j], factor.num,
                    factor.den),
            decreases n - i,
        {
            v.push(scale_sample_exec(self.buffer[i], factor.num, factor.den));
            i = i + 1;
        }
        proof {
            assert(v@ =~= spec_scale(self@, factor.num, factor.den));
        }
        Ok(ImageBuffer { buffer: v, width: self.width, height: self.height, empty: false })
    }
}

/// Smallest sample of a non-empty sequence.
pub open spec fn seq_min(s: Seq<i64>) -> i64
    recommends
        s.len() > 0,
    decreases s.len(),
{
    if s.len() <= 1 {
        s[0]
    } else {
        let m = seq_min(s.drop_last());
        if s.last() < m {
            s.last()
        } else {
            m
        }
    }
}

/// Largest sample of a non-empty sequence.
pub open spec fn seq_max(s: Seq<i64>) -> i64
    recommends
        s.len() > 0,
    decreases s.len(),
{
    if s.len() <= 1 {
        s[0]
    } else {
        let m = seq_max(s.drop_last());
        if s.last() > m {
            s.last()
        } else {
            m
        }
    }
}

/// The minimum and maximum of a non-empty sequence bound every element and
/// are both attained by one.
pub proof fn lemma_seq_min_max(s: Seq<i64>)
    requires
        s.len() > 0,
    ensures
        forall|i: int| 0 <= i < s.len() ==> seq_min(s) <= #[trigger] s[i] && s[i] <= seq_max(s),
        exists|i: int| 0 <= i < s.len() && s[i] == seq_min(s),
        exists|i: int| 0 <= i < s.len() && s[i] == seq_max(s),
    decreases s.len(),
{
    if s.len() == 1 {
        assert(s[0] == seq_min(s));
        assert(s[0] == seq_max(s));
    } else {
        lemma_seq_min_max(s.drop_last());
        assert forall|i: int| 0 <= i < s.len() implies seq_min(s) <= #[trigger] s[i] && s[i]
            <= seq_max(s) by {
            if i < s.len() - 1 {
                assert(s.drop_last()[i] == s[i]);
            }
        }
        if seq_min(s) == s.last() {
            assert(s[s.len() - 1] == seq_min(s));
        } else {
            let j = choose|j: int|
                0 <= j < s.drop_last().len() && s.drop_last()[j] == seq_min(s.drop_last());
            assert(s[j] == seq_min(s));
        }
        if seq_max(s) == s.last() {
            assert(s[s.len() - 1] == seq_max(s));
        } else {
            let j = choose|j: int|
                0 <= j < s.drop_last().len() && s.drop_last()[j] == seq_max(s.drop_last());
            assert(s[j] == seq_max(s));
        }
    }
}

/// A value that bounds a sequence from below and is attained is its minimum.
pub proof fn lemma_min_characterization(s: Seq<i64>, m: i64)
    requires
        s.len() > 0,
        forall|i: int| 0 <= i < s.len() ==> m <= #[trigger] s[i],
        exists|i: int| 0 <= i < s.len() && s[i] == m,
    ensures
        seq_min(s) == m,
{
    lemma_seq_min_max(s);
    let j = choose|j: int| 0 <= j < s.len() && s[j] == m;
    let k = choose|k: int| 0 <= k < s.len() && s[k] == seq_min(s);
    assert(seq_min(s) <= s[j]);
    assert(m <= s[k]);
}

/// A value that bounds a sequence from above and is attained is its maximum.
pub proof fn lemma_max_characterization(s: Seq<i64>, m: i64)
    requires
        s.len() > 0,
        forall|i: int| 0 <= i < s.len() ==> #[trigger] s[i] <= m,
        exists|i: int| 0 <= i < s.len() && s[i] == m,
    ensures
        seq_max(s) == m,
{
    lemma_seq_min_max(s);
    let j = choose|j: int| 0 <= j < s.len() && s[j] == m;
    let k = choose|k: int| 0 <= k < s.len() && s[k] == seq_max(s);
    assert(s[j] <= seq_max(s));
    assert(s[k] <= m);
}

/// Sum of the strictly positive samples of a sequence.
pub open spec fn sum_pos(s: Seq<i64>) -> int
    decreases s.len(),
{
    if s.len() == 0 {
        0
    } else {
        sum_pos(s.drop_last()) + if s.last() > 0 {
            s.last() as int
        } else {
            0
        }
    }
}

/// Number of strictly positive samples of a sequence.
pub open spec fn count_pos(s: Seq<i64>) -> int
    decreases s.len(),
{
    if s.len() == 0 {
        0
    } else {
        count_pos(s.drop_last()) + if s.last() > 0 {
            1int
        } else {
            0int
        }
    }
}

/// Mean of the strictly positive samples, truncated toward zero; zero when
/// no sample is strictly positive.
pub open spec fn spec_mean(s: Seq<i64>) -> i64 {
    if count_pos(s) > 0 {
        (sum_pos(s) / count_pos(s)) as i64
    } else {
        0
    }
}

/// The positive-sample sum and count are nonnegative, and the sum is at most
/// `count * SAMPLE_MAX` when every sample is range-bounded.
proof fn lemma_sum_count_pos(s: Seq<i64>)
    requires
        forall|i: int| 0 <= i < s.len() ==> in_sample_range(#[trigger] s[i]),
    ensures
        0 <= count_pos(s) <= s.len(),
        0 <= sum_pos(s) <= count_pos(s) * SAMPLE_MAX,
    decreases s.len(),
{
    if s.len() > 0 {
        assert(forall|i: int|
            0 <= i < s.drop_last().len() ==> in_sample_range(#[trigger] s.drop_last()[i]));
        lemma_sum_count_pos(s.drop_last());
        if s.last() > 0 {
            assert((count_pos(s.drop_last()) + 1) * SAMPLE_MAX == count_pos(s.drop_last())
                * SAMPLE_MAX + SAMPLE_MAX) by (nonlinear_arith);
        }
    }
}

/// Every sample shifted down by the sequence minimum, saturated.
pub open spec fn spec_shift_min_zero(s: Seq<i64>) -> Seq<i64> {
    Seq::new(s.len(), |i: int| clamp_sample(s[i] - seq_min(s)))
}

/// One cell of the two-pass normalization: a shifted sample `v` is rescaled
/// from `[0, mx]` onto `[lo, hi]`, truncating toward zero.
pub open spec fn norm_sample(v: i64, mx: i64, lo: i64, hi: i64) -> i64 {
    if mx <= 0 {
        lo
    } else {
        clamp_sample((v * (hi - lo)) / (mx as int) + lo)
    }
}

/// Two-pass normalization: shift so the minimum is zero, then linearly
/// rescale so the shifted maximum lands on `hi` and zero lands on `lo`.
pub open spec fn spec_normalize(s: Seq<i64>, lo: i64, hi: i64) -> Seq<i64> {
    let sh = spec_shift_min_zero(s);
    Seq::new(s.len(), |i: int| norm_sample(sh[i], seq_max(sh), lo, hi))
}

impl ImageBuffer {
    /// Mean of the strictly positive samples (masked and dark cells carry
    /// zero and are excluded from numerator and denominator alike); zero
    /// when no sample is strictly positive.
    pub fn mean(&self) -> (r: i64)
        requires
            self.wf(),
        ensures
            r == spec_mean(self@),
            0 <= r <= SAMPLE_MAX,
    {
        let n = self.buffer.len();
        let mut sum: u128 = 0;
        let mut count: u128 = 0;
        let mut i: usize = 0;
        proof {
            assert(self@.take(0) =~= Seq::<i64>::empty());
        }
        while i < n
            invariant
                i <= n,
                n == self@.len(),
                forall|j: int| 0 <= j < n ==> in_sample_range(#[trigger] self@[j]),
                sum == sum_pos(self@.take(i as int)),
                count == count_pos(self@.take(i as int)),
                count <= i,
                sum <= count * SAMPLE_MAX,
            decreases n - i,
        {
            let v = self.buffer[i];
            proof {
                assert(self@.take(i + 1).drop_last() =~= self@.take(i as int));
                assert(self@.take(i + 1).last() == self@[i as int]);
                if v > 0 {
                    assert((count + 1) * SAMPLE_MAX == count * SAMPLE_MAX + SAMPLE_MAX)
                        by (nonlinear_arith);
                }
            }
            if v > 0 {
                sum = sum + (v as u128);
                count = count + 1;
            }
            i = i + 1;
        }
        proof {
            assert(self@.take(n as int) =~= self@);
        }
        if count == 0 {
            0
        } else {
            proof {
                vstd::arithmetic::div_mod::lemma_div_is_ordered(sum as int,
                    count as int * SAMPLE_MAX, count as int);
                vstd::arithmetic::div_mod::lemma_div_multiples_vanish(SAMPLE_MAX as int,
                    count as int);
                vstd::arithmetic::div_mod::lemma_div_pos_is_pos(sum as int, count as int);
            }
            (sum / count) as i64
        }
    }

    /// The smallest and largest sample; `None` exactly when the raster has
    /// no samples. When `override_dark` is given it replaces the reported
    /// minimum, mirroring a caller-imposed dark floor.
    pub fn get_min_max(&self, override_dark: Option<i64>) -> (r: Option<MinMax>)
        requires
            self.wf(),
        ensures
            r is Some <==> self@.len() > 0,
            r matches Some(mm) ==> {
                &&& mm.max == seq_max(self@)
                &&& mm.min == (match override_dark {
                    Some(d) => d,
                    None => seq_min(self@),
                })
            },
    {
        let n = self.buffer.len();
        if n == 0 {
            return None;
        }
        let mut mn = self.buffer[0];
        let mut mx = self.buffer[0];
        let mut i: usize = 1;
        while i < n
            invariant
                1 <= i <= n,
                n == self@.len(),
                mn == seq_min(self@.take(i as int)),
                mx == seq_max(self@.take(i as int)),
            decreases n - i,
        {
            let v = self.buffer[i];
            proof {
                assert(self@.take(i + 1).drop_last() =~= self@.take(i as int));
                assert(self@.take(i + 1).last() == self@[i as int]);
            }
            if v < mn {
                mn = v;
            }
            if v > mx {
                mx = v;
            }
            i = i + 1;
        }
        proof {
            assert(self@.take(n as int) =~= self@);
        }
        match override_dark {
            Some(d) => Some(MinMax { min: d, max: mx }),
            None => Some(MinMax { min: mn, max: mx }),
        }
    }

    /// Shifts the raster so its smallest sample becomes zero.
    pub fn shift_to_min_zero(&self) -> (r: Result<ImageBuffer, Error>)
        requires
            self.wf(),
        ensures
            r is Ok,
            r matches Ok(b) ==> b.wf() && b.width == self.width && b.height == self.height
                && b@ == spec_shift_min_zero(self@),
    {
        let n = self.buffer.len();
        if n == 0 {
            proof {
                assert(Seq::<i64>::empty() =~= spec_shift_min_zero(self@));
            }
            return Ok(
                ImageBuffer {
                    buffer: Vec::new(),
                    width: self.width,
                    height: self.height,
                    empty: false,
                },
            );
        }
        let mm = self.get_min_max(None).unwrap();
        let mn = mm.min;
        proof {
            lemma_seq_min_max(self@);
        }
        let mut v: Vec<i64> = Vec::new();
        let mut i: usize = 0;
        while i < n
            invariant
                i <= n,
                n == self@.len(),
                n > 0,
                mn == seq_min(self@),
                in_sample_range(mn),
                forall|j: int| 0 <= j < n ==> in_sample_range(#[trigger] self@[j]),
                v@.len() == i,
                forall|j: int| 0 <= j < i ==> v@[j] == clamp_sample(self@[j] - seq_min(self@)),
            decreases n - i,
        {
            let d = self.buffer[i] - mn;
            v.push(clamp_exec(d));
            i = i + 1;
        }
        proof {
            assert(v@ =~= spec_shift_min_zero(self@));
        }
        Ok(ImageBuffer { buffer: v, width: self.width, height: self.height, empty: false })
    }

    /// Normalizes the raster into `[min, max]`: shifts the minimum to zero,
    /// then rescales linearly so the largest sample lands on `max`. A raster
    /// with no spread maps entirely onto `min`.
    pub fn normalize(&self, min: i64, max: i64) -> (r: Result<ImageBuffer, Error>)
        requires
            self.wf(),
            in_sample_range(min),
            in_sample_range(max),
            min <= max,
        ensures
            r is Ok,
            r matches Ok(b) ==> b.wf() && b.width == self.width && b.height == self.height
                && b@ == spec_normalize(self@, min, max),
    {
        let shifted = self.shift_to_min_zero()?;
        let n = shifted.buffer.len();
        if n == 0 {
            proof {
                assert(Seq::<i64>::empty() =~= spec_normalize(self@, min, max));
            }
            return Ok(
                ImageBuffer {
                    buffer: Vec::new(),
                    width: self.width,
                    height: self.height,
                    empty: false,
                },
            );
        }
        let mm = shifted.get_min_max(None).unwrap();
        let mx = mm.max;
        proof {
            lemma_seq_min_max(shifted@);
            lemma_seq_min_max(self@);
            assert forall|j: int| 0 <= j < shifted@.len() implies 0 <= #[trigger] shifted@[j] by {
                assert(shifted@[j] == clamp_sample(self@[j] - seq_min(self@)));
            }
        }
        let mut v: Vec<i64> = Vec::new();
        let mut i: usize = 0;
        while i < n
            invariant
                i <= n,
                n == shifted@.len(),
                n > 0,
                mx == seq_max(shifted@),
                in_sample_range(mx),
                in_sample_range(min),
                in_sample_range(max),
                min <= max,
                forall|j: int| 0 <= j < n ==> in_sample_range(#[trigger] shifted@[j]),
                forall|j: int| 0 <= j < n ==> 0 <= #[trigger] shifted@[j],
                v@.len() == i,
                forall|j: int| 0 <= j < i ==> v@[j] == norm_sample(shifted@[j], mx, min, max),
            decreases n - i,
        {
            let s = shifted.buffer[i];
            let c: i64 = if mx <= 0 {
                min
            } else {
                norm_sample_exec(s, mx, min, max)
            };
            v.push(c);
            i = i + 1;
        }
        proof {
            assert(v@ =~= spec_normalize(self@, min, max));
        }
        Ok(ImageBuffer { buffer: v, width: self.width, height: self.height, empty: false })
    }
}

/// Rescales one shifted sample onto `[lo, hi]` as [`norm_sample`] states.
fn norm_sample_exec(v: i64, mx: i64, lo: i64, hi: i64) -> (r: i64)
    requires
        0 <= v <= SAMPLE_MAX,
        0 < mx <= SAMPLE_MAX,
        in_sample_range(lo),
        in_sample_range(hi),
        lo <= hi,
    ensures
        r == norm_sample(v, mx, lo, hi),
{
    proof {
        lemma_mul_abs_bound(v as int, (hi - lo) as int, SAMPLE_MAX as int, 2 * SAMPLE_MAX as int);
    }
    let p: u128 = (v as u128) * ((hi as i128 - lo as i128) as u128);
    let q: u128 = p / (mx as u128);
    proof {
        vstd::arithmetic::div_mod::lemma_div_pos_is_pos(p as int, mx as int);
        vstd::arithmetic::div_mod::lemma_div_is_ordered_by_denominator(p as int, 1, mx as int);
        vstd::arithmetic::div_mod::lemma_div_basics(p as int);
    }
    let r0: i128 = (q as i128) + (lo as i128);
    if r0 > (SAMPLE_MAX as i128) {
        SAMPLE_MAX
    } else if r0 < (SAMPLE_MIN as i128) {
        SAMPLE_MIN
    } else {
        r0 as i64
    }
}

/// Distinct in-bounds coordinates map to distinct row-major indices.
pub proof fn lemma_raster_index_injective(x1: int, y1: int, x2: int, y2: int, w: int)
    requires
        0 <= x1 < w,
        0 <= x2 < w,
        0 <= y1,
        0 <= y2,
        raster_index(x1, y1, w) == raster_index(x2, y2, w),
    ensures
        x1 == x2 && y1 == y2,
{
    assert(y1 * w + x1 == y2 * w + x2 && 0 <= x1 < w && 0 <= x2 < w ==> x1 == x2 && y1 == y2)
        by (nonlinear_arith);
}

/// A sample clipped into `[lo, hi]`.
pub open spec fn clip_sample(v: i64, lo: i64, hi: i64) -> i64 {
    if v < lo {
        lo
    } else if v > hi {
        hi
    } else {
        v
    }
}

impl ImageBuffer {
    /// Extracts a horizontal band of `count` rows starting at `start_row`;
    /// fails with a size-mismatch condition exactly when the band does not
    /// lie within the raster.
    pub fn get_slice(&self, start_row: usize, count: usize) -> (r: Result<ImageBuffer, Error>)
        requires
            self.wf(),
        ensures
            r is Ok <==> start_row + count <= self.height,
            r matches Ok(b) ==> {
                &&& b.wf()
                &&& b.width == self.width
                &&& b.height == count
                &&& b@ == self@.subrange(start_row * self.width,
                    (start_row + count) * self.width)
            },
            r matches Err(e) ==> e == Error::DimensionMismatch,
    {
        if start_row > self.height || count > self.height - start_row {
            return Err(Error::DimensionMismatch);
        }
        proof {
            vstd::arithmetic::mul::lemma_mul_inequality((start_row + count) as int,
                self.height as int, self.width as int);
            assert((start_row + count) * self.width == start_row * self.width + count
                * self.width) by (nonlinear_arith);
            assert(self.height as int * self.width as int == self.width as int
                * self.height as int) by (nonlinear_arith);
        }
        let base = start_row * self.width;
        let n = count * self.width;
        let mut v: Vec<i64> = Vec::new();
        let mut i: usize = 0;
        while i < n
            invariant
                i <= n,
                self.wf(),
                base == start_row * self.width,
                n == count * self.width,
                base + n <= self@.len(),
                v@.len() == i,
                forall|j: int| 0 <= j < i ==> v@[j] == self@[base + j],
            decreases n - i,
        {
            v.push(self.buffer[base + i]);
            i = i + 1;
        }
        proof {
            assert(v@ =~= self@.subrange(start_row * self.width,
                (start_row + count) * self.width));
            assert(count as int * self.width as int == self.width as int * count as int)
                by (nonlinear_arith);
        }
        Ok(ImageBuffer { buffer: v, width: self.width, height: count, empty: false })
    }

    /// Pastes `src` into this raster with its top-left corner at
    /// `(tl_x, tl_y)`; fails with a size-mismatch condition exactly when the
    /// pasted rectangle does not fit, leaving the raster unchanged then.
    pub fn paste_mut(&mut self, src: &ImageBuffer, tl_x: usize, tl_y: usize) -> (r: Result<
        (),
        Error,
    >)
        requires
            old(self).wf(),
            src.wf(),
        ensures
            final(self).wf(),
            final(self).width == old(self).width,
            final(self).height == old(self).height,
            final(self)@.len() == old(self)@.len(),
            r is Ok <==> tl_x + src.width <= old(self).width && tl_y + src.height <= old(
                self,
            ).height,
            r is Err ==> final(self)@ == old(self)@,
            r matches Err(e) ==> e == Error::DimensionMismatch,
            r is Ok ==> forall|x: int, y: int|
                final(self).in_bounds(x, y) ==> final(self).sample_at(x, y) == (
                if tl_x <= x < tl_x + src.width && tl_y <= y < tl_y + src.height {
                    src.sample_at(x - tl_x, y - tl_y)
                } else {
                    old(self).sample_at(x, y)
                }),
    {
        if tl_x > self.width || src.width > self.width - tl_x || tl_y > self.height
            || src.height > self.height - tl_y {
            return Err(Error::DimensionMismatch);
        }
        let ghost orig = *self;
        let sw = src.width;
        let sh = src.height;
        let mut y: usize = 0;
        while y < sh
            invariant
                y <= sh,
                self.wf(),
                src.wf(),
                sw == src.width,
                sh == src.height,
                tl_x + sw <= self.width,
                tl_y + sh <= self.height,
                self.width == orig.width,
                self.height == orig.height,
                self@.len() == orig@.len(),
                orig.wf(),
                self.empty == orig.empty,
                forall|xx: int, yy: int|
                    self.in_bounds(xx, yy) ==> self.sample_at(xx, yy) == (
                    if tl_x <= xx < tl_x + sw && tl_y <= yy < tl_y + y {
                        src.sample_at(xx - tl_x, yy - tl_y)
                    } else {
                        orig.sample_at(xx, yy)
                    }),
            decreases sh - y,
        {
            let mut x: usize = 0;
            while x < sw
                invariant
                    x <= sw,
                    y < sh,
                    self.wf(),
                    src.wf(),
                    sw == src.width,
                    sh == src.height,
                    tl_x + sw <= self.width,
                    tl_y + sh <= self.height,
                    self.width == orig.width,
                    self.height == orig.height,
                    self@.len() == orig@.len(),
                    orig.wf(),
                    self.empty == orig.empty,
                    forall|xx: int, yy: int|
                        self.in_bounds(xx, yy) ==> self.sample_at(xx, yy) == (
                        if tl_x <= xx < tl_x + sw && (tl_y <= yy < tl_y + y || (yy == tl_y + y
                            && xx < tl_x + x)) {
                            src.sample_at(xx - tl_x, yy - tl_y)
                        } else {
                            orig.sample_at(xx, yy)
                        }),
                decreases sw - x,
            {
                proof {
                    lemma_raster_index_bound(x as int, y as int, sw as int, sh as int);
                    lemma_raster_index_bound((tl_x + x) as int, (tl_y + y) as int,
                        self.width as int, self.height as int);
                }
                let val = src.buffer[y * sw + x];
                let ghost prev = *self;
                let idx = (tl_y + y) * self.width + (tl_x + x);
                self.buffer.set(idx, val);
                proof {
                    assert forall|xx: int, yy: int|
                        self.in_bounds(xx, yy) implies self.sample_at(xx, yy) == (
                        if tl_x <= xx < tl_x + sw && (tl_y <= yy < tl_y + y || (yy == tl_y + y
                            && xx < tl_x + x + 1)) {
                            src.sample_at(xx - tl_x, yy - tl_y)
                        } else {
                            orig.sample_at(xx, yy)
                        }) by {
                        lemma_raster_index_bound(xx, yy, self.width as int, self.height as int);
                        if raster_index(xx, yy, self.width as int) == idx {
                            lemma_raster_index_injective(xx, yy, (tl_x + x) as int,
                                (tl_y + y) as int, self.width as int);
                        } else {
                            assert(self.sample_at(xx, yy) == prev.sample_at(xx, yy));
                        }
                    }
                }
                x = x + 1;
            }
            y = y + 1;
        }
        Ok(())
    }

    /// Clips every sample into `[lo, hi]` in place.
    pub fn clip_mut(&mut self, lo: i64, hi: i64)
        requires
            old(self).wf(),
            in_sample_range(lo),
            in_sample_range(hi),
            lo <= hi,
        ensures
            final(self).wf(),
            final(self).width == old(self).width,
            final(self).height == old(self).height,
            final(self).spec_is_empty() == old(self).spec_is_empty(),
            final(self)@ == Seq::new(old(self)@.len(), |i: int| clip_sample(old(self)@[i], lo, hi)),
    {
        let n = self.buffer.len();
        let ghost orig = *self;
        let mut i: usize = 0;
        while i < n
            invariant
                i <= n,
                n == self@.len(),
                self@.len() == orig@.len(),
                self.width == orig.width,
                self.height == orig.height,
                self.empty == orig.empty,
                orig.wf(),
                in_sample_range(lo),
                in_sample_range(hi),
                lo <= hi,
                forall|j: int| 0 <= j < i ==> self@[j] == clip_sample(orig@[j], lo, hi),
                forall|j: int| i <= j < n ==> self@[j] == orig@[j],
            decreases n - i,
        {
            let v = self.buffer[i];
            let c = if v < lo {
                lo
            } else if v > hi {
                hi
            } else {
                v
            };
            self.buffer.set(i, c);
            i = i + 1;
        }
        proof {
            assert(self@ =~= Seq::new(orig@.len(), |i: int| clip_sample(orig@[i], lo, hi)));
        }
    }

    /// Extracts a centered crop of the requested dimensions; fails with a
    /// size-mismatch condition exactly when the crop exceeds the raster.
    pub fn crop(&self, height: usize, width: usize) -> (r: Result<ImageBuffer, Error>)
        requires
            self.wf(),
        ensures
            r is Ok <==> width <= self.width && height <= self.height,
            r matches Ok(b) ==> {
                &&& b.wf()
                &&& b.width == width
                &&& b.height == height
                &&& forall|x: int, y: int|
                    b.in_bounds(x, y) ==> b.sample_at(x, y) == self.sample_at(
                        (self.width - width) / 2 + x, (self.height - height) / 2 + y)
            },
            r matches Err(e) ==> e == Error::DimensionMismatch,
    {
        if width > self.width || height > self.height {
            return Err(Error::DimensionMismatch);
        }
        let x0 = (self.width - width) / 2;
        let y0 = (self.height - height) / 2;
        proof {
            assert(x0 + width <= self.width && y0 + height <= self.height) by (nonlinear_arith)
                requires
                    x0 == (self.width - width) / 2,
                    y0 == (self.height - height) / 2,
                    width <= self.width < 0x1_0000_0000_0000_0000,
                    height <= self.height < 0x1_0000_0000_0000_0000,
            ;
        }
        self.window(x0, y0, width, height)
    }

    /// Copies the `width x height` window whose top-left corner is at
    /// `(x0, y0)` into a raster of its own.
    fn window(&self, x0: usize, y0: usize, width: usize, height: usize) -> (r: Result<
        ImageBuffer,
        Error,
    >)
        requires
            self.wf(),
            x0 + width <= self.width,
            y0 + height <= self.height,
        ensures
            r is Ok,
            r matches Ok(b) ==> {
                &&& b.wf()
                &&& b.width == width
                &&& b.height == height
                &&& forall|x: int, y: int|
                    b.in_bounds(x, y) ==> b.sample_at(x, y) == self.sample_at(x0 + x, y0 + y)
            },
    {
        proof {
            vstd::arithmetic::mul::lemma_mul_inequality(height as int, self.height as int,
                self.width as int);
            assert(self.height as int * self.width as int == self.width as int
                * self.height as int) by (nonlinear_arith);
            vstd::arithmetic::mul::lemma_mul_inequality(width as int, self.width as int,
                height as int);
            assert(self.width as int * height as int == height as int * self.width as int)
                by (nonlinear_arith);
        }
        let mut v: Vec<i64> = Vec::new();
        let mut y: usize = 0;
        while y < height
            invariant
                y <= height,
                self.wf(),
                x0 + width <= self.width,
                y0 + height <= self.height,
                width * height <= usize::MAX,
                v@.len() == y * width,
                forall|j: int| 0 <= j < v@.len() ==> in_sample_range(#[trigger] v@[j]),
                forall|xx: int, yy: int|
                    0 <= xx < width && 0 <= yy < y ==> #[trigger] v@[raster_index(xx, yy,
                        width as int)] == self.sample_at(x0 + xx, y0 + yy),
            decreases height - y,
        {
            let mut x: usize = 0;
            proof {
                vstd::arithmetic::mul::lemma_mul_inequality((y + 1) as int, height as int,
                    width as int);
                assert((y + 1) as int * width as int == y * width + width) by (nonlinear_arith);
                assert(height as int * width as int == width as int * height as int)
                    by (nonlinear_arith);
            }
            while x < width
                invariant
                    x <= width,
                    y < height,
                    self.wf(),
                    x0 + width <= self.width,
                    y0 + height <= self.height,
                    v@.len() == y * width + x,
                    forall|j: int| 0 <= j < v@.len() ==> in_sample_range(#[trigger] v@[j]),
                    forall|xx: int, yy: int|
                        0 <= xx < width && 0 <= yy < y ==> #[trigger] v@[raster_index(xx, yy,
                            width as int)] == self.sample_at(x0 + xx, y0 + yy),
                    forall|xx: int|
                        0 <= xx < x ==> #[trigger] v@[raster_index(xx, y as int, width as int)]
                            == self.sample_at(x0 + xx, y0 + y),
                decreases width - x,
            {
                proof {
                    lemma_raster_index_bound((x0 + x) as int, (y0 + y) as int, self.width as int,
                        self.height as int);
                }
                v.push(self.buffer[(y0 + y) * self.width + (x0 + x)]);
                proof {
                    assert forall|xx: int, yy: int|
                        0 <= xx < width && 0 <= yy < y implies #[trigger] v@[raster_index(xx, yy,
                        width as int)] == self.sample_at(x0 + xx, y0 + yy) by {
                        lemma_raster_index_bound(xx, yy, width as int, y as int);
                        assert(width as int * y as int == y as int * width as int)
                            by (nonlinear_arith);
                        assert(raster_index(xx, yy, width as int) < y * width);
                    }
                }
                x = x + 1;
            }
            proof {
                assert forall|xx: int, yy: int|
                    0 <= xx < width && 0 <= yy < y + 1 implies #[trigger] v@[raster_index(xx, yy,
                    width as int)] == self.sample_at(x0 + xx, y0 + yy) by {
                    if yy == y {
                        assert(v@[raster_index(xx, y as int, width as int)] == self.sample_at(
                            x0 + xx, y0 + y));
                    } else {
                        assert(v@[raster_index(xx, yy, width as int)] == self.sample_at(x0 + xx,
                            y0 + yy));
                    }
                }
            }
            y = y + 1;
        }
        proof {
            assert(v@.len() == height * width);
            assert(height as int * width as int == width as int * height as int)
                by (nonlinear_arith);
        }
        Ok(ImageBuffer { buffer: v, width, height, empty: false })
    }

    /// Shifts the raster by `(horiz, vert)`; cells whose source falls
    /// outside the raster become zero.
    pub fn shift(&self, horiz: i32, vert: i32) -> (r: Result<ImageBuffer, Error>)
        requires
            self.wf(),
        ensures
            r is Ok,
            r matches Ok(b) ==> {
                &&& b.wf()
                &&& b.width == self.width
                &&& b.height == self.height
                &&& forall|x: int, y: int|
                    b.in_bounds(x, y) ==> b.sample_at(x, y) == (
                    if self.in_bounds(x - horiz, y - vert) {
                        self.sample_at(x - horiz, y - vert)
                    } else {
                        0i64
                    })
            },
    {
        let w = self.width;
        let h = self.height;
        let mut v: Vec<i64> = Vec::new();
        let mut y: usize = 0;
        proof {
            assert(w as int * h as int == h as int * w as int) by (nonlinear_arith);
        }
        while y < h
            invariant
                y <= h,
                self.wf(),
                w == self.width,
                h == self.height,
                v@.len() == y * w,
                forall|j: int| 0 <= j < v@.len() ==> in_sample_range(#[trigger] v@[j]),
                forall|xx: int, yy: int|
                    0 <= xx < w && 0 <= yy < y ==> #[trigger] v@[raster_index(xx, yy, w as int)]
                        == (if self.in_bounds(xx - horiz, yy - vert) {
                        self.sample_at(xx - horiz, yy - vert)
                    } else {
                        0i64
                    }),
            decreases h - y,
        {
            let mut x: usize = 0;
            proof {
                vstd::arithmetic::mul::lemma_mul_inequality((y + 1) as int, h as int, w as int);
                assert((y + 1) as int * w as int == y * w + w) by (nonlinear_arith);
                assert(h as int * w as int == w as int * h as int) by (nonlinear_arith);
            }
            while x < w
                invariant
                    x <= w,
                    y < h,
                    self.wf(),
                    w == self.width,
                    h == self.height,
                    v@.len() == y * w + x,
                    forall|j: int| 0 <= j < v@.len() ==> in_sample_range(#[trigger] v@[j]),
                    forall|xx: int, yy: int|
                        0 <= xx < w && 0 <= yy < y ==> #[trigger] v@[raster_index(xx, yy,
                            w as int)] == (if self.in_bounds(xx - horiz, yy - vert) {
                            self.sample_at(xx - horiz, yy - vert)
                        } else {
                            0i64
                        }),
                    forall|xx: int|
                        0 <= xx < x ==> #[trigger] v@[raster_index(xx, y as int, w as int)] == (
                        if self.in_bounds(xx - horiz, y - vert) {
                            self.sample_at(xx - horiz, y - vert)
                        } else {
                            0i64
                        }),
                decreases w - x,
            {
                let sx: i128 = (x as i128) - (horiz as i128);
                let sy: i128 = (y as i128) - (vert as i128);
                let val: i64 = if sx >= 0 && sy >= 0 && sx < (w as i128) && sy < (h as i128) {
                    proof {
                        lemma_raster_index_bound(sx as int, sy as int, w as int, h as int);
                    }
                    self.buffer[(sy as usize) * w + (sx as usize)]
                } else {
                    0
                };
                v.push(val);
                proof {
                    assert forall|xx: int, yy: int|
                        0 <= xx < w && 0 <= yy < y implies #[trigger] v@[raster_index(xx, yy,
                        w as int)] == (if self.in_bounds(xx - horiz, yy - vert) {
                        self.sample_at(xx - horiz, yy - vert)
                    } else {
                        0i64
                    }) by {
                        lemma_raster_index_bound(xx, yy, w as int, y as int);
                        assert(w as int * y as int == y as int * w as int) by (nonlinear_arith);
                        assert(raster_index(xx, yy, w as int) < y * w);
                    }
                }
                x = x + 1;
            }
            proof {
                assert forall|xx: int, yy: int|
                    0 <= xx < w && 0 <= yy < y + 1 implies #[trigger] v@[raster_index(xx, yy,
                    w as int)] == (if self.in_bounds(xx - horiz, yy - vert) {
                    self.sample_at(xx - horiz, yy - vert)
                } else {
                    0i64
                }) by {
                    if yy == y {
                        assert(v@[raster_index(xx, y as int, w as int)] == (
                        if self.in_bounds(xx - horiz, y - vert) {
                            self.sample_at(xx - horiz, y - vert)
                        } else {
                            0i64
                        }));
                    } else {
                        assert(v@[raster_index(xx, yy, w as int)] == (
                        if self.in_bounds(xx - horiz, yy - vert) {
                            self.sample_at(xx - horiz, yy - vert)
                        } else {
                            0i64
                        }));
                    }
                }
            }
            y = y + 1;
        }
        Ok(ImageBuffer { buffer: v, width: w, height: h, empty: false })
    }

    /// Downsamples by a factor of two, keeping the sample at each
    /// even-indexed coordinate.
    pub fn red(&self) -> (r: Result<ImageBuffer, Error>)
        requires
            self.wf(),
        ensures
            r is Ok,
            r matches Ok(b) ==> {
                &&& b.wf()
                &&& b.width == self.width / 2
                &&& b.height == self.height / 2
                &&& forall|x: int, y: int|
                    b.in_bounds(x, y) ==> b.sample_at(x, y) == self.sample_at(2 * x, 2 * y)
            },
    {
        let dw = self.width / 2;
        let dh = self.height / 2;
        let mut v: Vec<i64> = Vec::new();
        let mut y: usize = 0;
        proof {
            assert(dw * dh <= self.width * self.height && dw as int * dh as int == dh as int
                * dw as int) by (nonlinear_arith)
                requires
                    dw == self.width / 2,
                    dh == self.height / 2,
                    self.width >= 0,
                    self.height >= 0,
            ;
        }
        while y < dh
            invariant
                y <= dh,
                self.wf(),
                dw == self.width / 2,
                dh == self.height / 2,
                dw * dh <= usize::MAX,
                v@.len() == y * dw,
                forall|j: int| 0 <= j < v@.len() ==> in_sample_range(#[trigger] v@[j]),
                forall|xx: int, yy: int|
                    0 <= xx < dw && 0 <= yy < y ==> #[trigger] v@[raster_index(xx, yy, dw as int)]
                        == self.sample_at(2 * xx, 2 * yy),
            decreases dh - y,
        {
            let mut x: usize = 0;
            proof {
                vstd::arithmetic::mul::lemma_mul_inequality((y + 1) as int, dh as int, dw as int);
                assert((y + 1) as int * dw as int == y * dw + dw) by (nonlinear_arith);
                assert(dh as int * dw as int == dw as int * dh as int) by (nonlinear_arith);
            }
            while x < dw
                invariant
                    x <= dw,
                    y < dh,
                    self.wf(),
                    dw == self.width / 2,
                    dh == self.height / 2,
                    v@.len() == y * dw + x,
                    forall|j: int| 0 <= j < v@.len() ==> in_sample_range(#[trigger] v@[j]),
                    forall|xx: int, yy: int|
                        0 <= xx < dw && 0 <= yy < y ==> #[trigger] v@[raster_index(xx, yy,
                            dw as int)] == self.sample_at(2 * xx, 2 * yy),
                    forall|xx: int|
                        0 <= xx < x ==> #[trigger] v@[raster_index(xx, y as int, dw as int)]
                            == self.sample_at(2 * xx, 2 * y),
                decreases dw - x,
            {
                proof {
                    assert(2 * x < self.width && 2 * y < self.height) by (nonlinear_arith)
                        requires
                            x < dw,
                            y < dh,
                            dw == self.width / 2,
                            dh == self.height / 2,
                    ;
                    lemma_raster_index_bound(2 * x as int, 2 * y as int, self.width as int,
                        self.height as int);
                }
                v.push(self.buffer[(2 * y) * self.width + 2 * x]);
                proof {
                    assert forall|xx: int, yy: int|
                        0 <= xx < dw && 0 <= yy < y implies #[trigger] v@[raster_index(xx, yy,
                        dw as int)] == self.sample_at(2 * xx, 2 * yy) by {
                        lemma_raster_index_bound(xx, yy, dw as int, y as int);
                        assert(dw as int * y as int == y as int * dw as int) by (nonlinear_arith);
                        assert(raster_index(xx, yy, dw as int) < y * dw);
                    }
                }
                x = x + 1;
            }
            proof {
                assert forall|xx: int, yy: int|
                    0 <= xx < dw && 0 <= yy < y + 1 implies #[trigger] v@[raster_index(xx, yy,
                    dw as int)] == self.sample_at(2 * xx, 2 * yy) by {
                    if yy == y {
                        assert(v@[raster_index(xx, y as int, dw as int)] == self.sample_at(2 * xx,
                            2 * y));
                    } else {
                        assert(v@[raster_index(xx, yy, dw as int)] == self.sample_at(2 * xx,
                            2 * yy));
                    }
                }
            }
            y = y + 1;
        }
        proof {
            assert(dh as int * dw as int == dw as int * dh as int) by (nonlinear_arith);
        }
        Ok(ImageBuffer { buffer: v, width: dw, height: dh, empty: false })
    }
}

/// Law: adding a raster `a` and then subtracting `a` again reproduces the
/// original raster clamped at zero — `subtract` floors each difference at
/// zero, so cells that began negative come back as zero and every other
/// cell comes back unchanged. Holds whenever the intermediate sums stay
/// within the representable sample range.
pub proof fn lemma_add_then_subtract(b: Seq<i64>, a: Seq<i64>)
    requires
        b.len() == a.len(),
        forall|i: int| 0 <= i < b.len() ==> in_sample_range(#[trigger] b[i]),
        forall|i: int| 0 <= i < a.len() ==> in_sample_range(#[trigger] a[i]),
        forall|i: int| 0 <= i < b.len() ==> in_sample_range((#[trigger] b[i] + a[i]) as i64),
    ensures
        spec_subtract(spec_add(b, a), a) =~= Seq::new(
            b.len(),
            |i: int|
                if b[i] < 0 {
                    0i64
                } else {
                    b[i]
                },
        ),
{
    assert forall|i: int| 0 <= i < b.len() implies spec_subtract(spec_add(b, a), a)[i] == (
    if b[i] < 0 {
        0i64
    } else {
        b[i]
    }) by {
        assert(spec_add(b, a)[i] == clamp_sample(b[i] + a[i]));
        assert(clamp_sample(b[i] + a[i]) == b[i] + a[i]);
    }
}

/// Law: normalizing a raster with nonzero spread onto `[lo, hi]` yields a
/// raster whose minimum is exactly `lo` and whose maximum is exactly `hi`.
pub proof fn lemma_normalize_full_range(s: Seq<i64>, lo: i64, hi: i64)
    requires
        s.len() > 0,
        forall|i: int| 0 <= i < s.len() ==> in_sample_range(#[trigger] s[i]),
        in_sample_range(lo),
        in_sample_range(hi),
        lo <= hi,
        seq_min(s) < seq_max(s),
    ensures
        seq_min(spec_normalize(s, lo, hi)) == lo,
        seq_max(spec_normalize(s, lo, hi)) == hi,
{
    lemma_seq_min_max(s);
    let mn = seq_min(s);
    let mx = seq_max(s);
    let sh = spec_shift_min_zero(s);
    let r = spec_normalize(s, lo, hi);

    // The shifted raster has minimum zero and maximum clamp(mx - mn) > 0.
    let shmax = clamp_sample(mx - mn);
    assert forall|i: int| 0 <= i < sh.len() implies 0 <= #[trigger] sh[i] && sh[i] <= shmax by {
        assert(mn <= s[i] <= mx);
    }
    let j0 = choose|j: int| 0 <= j < s.len() && s[j] == mn;
    assert(sh[j0] == 0);
    let j1 = choose|j: int| 0 <= j < s.len() && s[j] == mx;
    assert(sh[j1] == shmax);
    lemma_min_characterization(sh, 0);
    lemma_max_characterization(sh, shmax);
    assert(shmax > 0);

    let d = (hi - lo) as int;
    let m = shmax as int;
    // Every rescaled cell lies in [lo, hi], and the extremes are attained.
    assert forall|i: int| 0 <= i < r.len() implies lo <= #[trigger] r[i] && r[i] <= hi by {
        assert(r[i] == norm_sample(sh[i], shmax, lo, hi));
        vstd::arithmetic::mul::lemma_mul_inequality(sh[i] as int, m, d);
        vstd::arithmetic::div_mod::lemma_div_is_ordered(sh[i] * d, m * d, m);
        vstd::arithmetic::div_mod::lemma_div_multiples_vanish(d, m);
        assert(m * d == d * m) by (nonlinear_arith);
        vstd::arithmetic::div_mod::lemma_div_pos_is_pos(sh[i] * d, m);
        assert(sh[i] * d >= 0) by (nonlinear_arith)
            requires
                sh[i] >= 0,
                d >= 0,
        ;
    }
    assert(r[j0] == norm_sample(0, shmax, lo, hi));
    assert(0 * d == 0) by (nonlinear_arith);
    vstd::arithmetic::div_mod::lemma_div_of0(m);
    assert(r[j0] == lo);
    assert(r[j1] == norm_sample(shmax, shmax, lo, hi));
    vstd::arithmetic::div_mod::lemma_div_multiples_vanish(d, m);
    assert(m * d == d * m) by (nonlinear_arith);
    assert(r[j1] == hi);
    lemma_min_characterization(r, lo);
    lemma_max_characterization(r, hi);
}

/// Law: reading a coordinate straight after writing it yields the written
/// value. For every raster `b` and valid coordinate `(x, y)`, a `put` of `v`
/// followed by a `get` of the same coordinate returns `v`: the written cell
/// holds `v` and no other cell moved.
pub proof fn lemma_get_after_put(b: ImageBuffer, x: int, y: int, v: i64)
    requires
        b.wf(),
        b.in_bounds(x, y),
        in_sample_range(v),
    ensures
        b@.update(raster_index(x, y, b.width as int), v)[raster_index(x, y, b.width as int)] == v,
        forall|i: int|
            0 <= i < b@.len() && i != raster_index(x, y, b.width as int)
                ==> b@.update(raster_index(x, y, b.width as int), v)[i] == b@[i],
{
    lemma_raster_index_bound(x, y, b.width as int, b.height as int);
}

} // verus!
