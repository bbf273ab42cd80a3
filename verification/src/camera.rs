//! The per-channel camera model: radial distortion and its inversion.
//!
//! Coordinates are carried in micropixels (one millionth of a pixel) so the
//! numerically sensitive distortion arithmetic is exact integer arithmetic.
//! The forward model scales a coordinate by `1 + k1*r2 + k2*r2^2` with `r2`
//! the squared radius; the inverse runs a fixed five-iteration refinement
//! that recomputes `r2` from the current estimate and divides the original
//! coordinates by the factor — an approximation, not an exact inverse.

use vstd::prelude::*;

use crate::buffer::div_trunc;
use crate::enums::Channel;

verus! {

/// One micropixel unit: coordinates carry six decimal places.
pub const COORD_SCALE: i64 = 1000000;

/// Largest coordinate magnitude the model accepts, in micropixels.
pub const COORD_LIMIT: i64 = 16384000000;

/// The radial distortion coefficient `k1`, scaled by `10^15`.
pub const K1_SCALED: i64 = -59624209;

/// The radial distortion coefficient `k2`, scaled by `10^21`.
pub const K2_SCALED: i64 = 27381910;

/// Focal length over pixel size, in micropixels.
pub const FL_MICRO: i64 = 1480590540;

/// Horizontal principal point, in micropixels (shared by all channels).
pub const CX_MICRO: i64 = 814210000;

/// Vertical principal point of the blue channel, in micropixels.
pub const CY_BLUE_MICRO: i64 = 158480000;

/// Vertical principal point of the green channel, in micropixels.
pub const CY_GREEN_MICRO: i64 = 3480000;

/// Vertical principal point of the red channel, in micropixels.
pub const CY_RED_MICRO: i64 = -151520000;

/// Vertical principal point of the methane channel, in micropixels.
pub const CY_METHANE_MICRO: i64 = 315480000;

/// A direction in the camera's optical frame, in micro-units.
#[derive(Clone, Copy, Debug, PartialEq, Eq, Structural)]
pub struct Vector {
    pub x: i64,
    pub y: i64,
    pub z: i64,
}

/// Saturates a computed coordinate into the model's working range.
pub open spec fn clamp_coord(v: int) -> i64 {
    if v > COORD_LIMIT {
        COORD_LIMIT
    } else if v < -COORD_LIMIT {
        (-COORD_LIMIT) as i64
    } else {
        v as i64
    }
}

/// The coordinate lies in the model's working range.
pub open spec fn coord_ok(v: i64) -> bool {
    -COORD_LIMIT <= v && v <= COORD_LIMIT
}

/// Squared radius of `(x, y)`, in micropixel-squared units over one
/// coordinate scale.
pub open spec fn spec_r2(x: i64, y: i64) -> int {
    (x * x + y * y) / (COORD_SCALE as int)
}

/// The distortion factor `1 + k1*r2 + k2*r2^2`, scaled by the coordinate
/// scale, truncating each term toward zero.
pub open spec fn spec_dr(r2: int) -> int {
    COORD_SCALE + div_trunc(K1_SCALED * r2, 1000000000000000) + div_trunc(
        K2_SCALED * r2 * r2,
        1000000000000000000000000000,
    )
}

/// One step of the inverse refinement: recompute the factor from the
/// current estimate and divide the original coordinates by it; a
/// non-positive factor (outside the calibrated field) leaves the estimate.
pub open spec fn spec_undistort_step(c0: i64, c1: i64, xd: i64, yd: i64) -> (i64, i64) {
    let dr = spec_dr(spec_r2(xd, yd));
    if dr <= 0 {
        (xd, yd)
    } else {
        (
            clamp_coord(div_trunc(c0 * COORD_SCALE, dr)),
            clamp_coord(div_trunc(c1 * COORD_SCALE, dr)),
        )
    }
}

/// `n` refinement steps from the starting estimate `(c0, c1)` itself.
pub open spec fn spec_undistort_iter(c0: i64, c1: i64, n: nat) -> (i64, i64)
    decreases n,
{
    if n == 0 {
        (c0, c1)
    } else {
        let prev = spec_undistort_iter(c0, c1, (n - 1) as nat);
        spec_undistort_step(c0, c1, prev.0, prev.1)
    }
}

/// The forward distortion of `(x, y)`.
pub open spec fn spec_distort(x: i64, y: i64) -> (i64, i64) {
    let dr = spec_dr(spec_r2(x, y));
    (
        clamp_coord(div_trunc(x * dr, COORD_SCALE as int)),
        clamp_coord(div_trunc(y * dr, COORD_SCALE as int)),
    )
}

/// Truncating division of a bounded wide value by a positive divisor,
/// saturated into the coordinate range.
fn div_coord(num: i128, den: i128) -> (r: i64)
    requires
        0 < den,
        -0x1000_0000_0000_0000_0000_0000 <= num <= 0x1000_0000_0000_0000_0000_0000,
    ensures
        r == clamp_coord(div_trunc(num as int, den as int)),
        coord_ok(r),
{
    let un: u128 = if num < 0 {
        (-num) as u128
    } else {
        num as u128
    };
    let q: u128 = un / (den as u128);
    proof {
        vstd::arithmetic::div_mod::lemma_div_pos_is_pos(un as int, den as int);
        vstd::arithmetic::div_mod::lemma_div_is_ordered_by_denominator(un as int, 1, den as int);
        vstd::arithmetic::div_mod::lemma_div_basics(un as int);
    }
    let qc: i64 = if q > (COORD_LIMIT as u128) {
        COORD_LIMIT
    } else {
        q as i64
    };
    if num < 0 {
        -qc
    } else {
        qc
    }
}

/// The squared radius of two in-range coordinates.
fn r2_exec(x: i64, y: i64) -> (r: i128)
    requires
        coord_ok(x),
        coord_ok(y),
    ensures
        r == spec_r2(x, y),
        0 <= r <= 536870912000000,
{
    proof {
        crate::buffer::lemma_mul_abs_bound(x as int, x as int, COORD_LIMIT as int,
            COORD_LIMIT as int);
        crate::buffer::lemma_mul_abs_bound(y as int, y as int, COORD_LIMIT as int,
            COORD_LIMIT as int);
        assert(0 <= x as int * x as int && 0 <= y as int * y as int) by (nonlinear_arith);
        assert(COORD_LIMIT as int * COORD_LIMIT as int == 268435456000000000000)
            by (nonlinear_arith);
    }
    let xx: i128 = (x as i128) * (x as i128);
    let yy: i128 = (y as i128) * (y as i128);
    let s: u128 = (xx as u128) + (yy as u128);
    let q: u128 = s / (COORD_SCALE as u128);
    proof {
        vstd::arithmetic::div_mod::lemma_div_pos_is_pos(s as int, COORD_SCALE as int);
        vstd::arithmetic::div_mod::lemma_div_is_ordered(s as int, 536870912000000000000,
            COORD_SCALE as int);
        vstd::arithmetic::div_mod::lemma_div_multiples_vanish(536870912000000,
            COORD_SCALE as int);
        assert(COORD_SCALE as int * 536870912000000 == 536870912000000000000)
            by (nonlinear_arith);
    }
    q as i128
}

/// The distortion factor for a squared radius in the working range.
fn dr_exec(r2: i128) -> (r: i128)
    requires
        0 <= r2 <= 536870912000000,
    ensures
        r == spec_dr(r2 as int),
        -0x3_0000_0000 <= r <= 0x3_0000_0000,
{
    proof {
        crate::buffer::lemma_mul_abs_bound(K1_SCALED as int, r2 as int, 59624209,
            536870912000000);
        crate::buffer::lemma_mul_abs_bound(K2_SCALED as int, r2 as int, 27381910,
            536870912000000);
        crate::buffer::lemma_mul_abs_bound(K2_SCALED as int * r2 as int, r2 as int,
            27381910int * 536870912000000, 536870912000000);
    }
    let t1n: i128 = (K1_SCALED as i128) * r2;
    let u1: u128 = if t1n < 0 {
        (-t1n) as u128
    } else {
        t1n as u128
    };
    let q1: u128 = u1 / 1000000000000000u128;
    proof {
        vstd::arithmetic::div_mod::lemma_div_pos_is_pos(u1 as int, 1000000000000000);
        vstd::arithmetic::div_mod::lemma_div_is_ordered(u1 as int,
            40000000int * 1000000000000000, 1000000000000000);
        vstd::arithmetic::div_mod::lemma_div_multiples_vanish(40000000, 1000000000000000);
        assert(59624209int * 536870912000000 <= 40000000int * 1000000000000000)
            by (nonlinear_arith);
        assert(1000000000000000int * 40000000 == 40000000int * 1000000000000000)
            by (nonlinear_arith);
    }
    let t1: i128 = if t1n < 0 {
        -(q1 as i128)
    } else {
        q1 as i128
    };
    let t2n: i128 = (K2_SCALED as i128) * r2 * r2;
    let u2: u128 = if t2n < 0 {
        (-t2n) as u128
    } else {
        t2n as u128
    };
    let q2: u128 = u2 / 1000000000000000000000000000u128;
    proof {
        vstd::arithmetic::div_mod::lemma_div_pos_is_pos(u2 as int, 1000000000000000000000000000);
        vstd::arithmetic::div_mod::lemma_div_is_ordered(u2 as int,
            8000000000int * 1000000000000000000000000000, 1000000000000000000000000000);
        vstd::arithmetic::div_mod::lemma_div_multiples_vanish(8000000000,
            1000000000000000000000000000);
        assert(27381910 * 536870912000000 * 536870912000000int <= 8000000000int
            * 1000000000000000000000000000) by (nonlinear_arith);
        assert(1000000000000000000000000000int * 8000000000 == 8000000000int
            * 1000000000000000000000000000) by (nonlinear_arith);
    }
    let t2: i128 = if t2n < 0 {
        -(q2 as i128)
    } else {
        q2 as i128
    };
    (COORD_SCALE as i128) + t1 + t2
}

/// Per-channel camera intrinsics: the channel's principal point. The
/// distortion coefficients, focal length and pixel size are shared by all
/// channels of the instrument.
#[derive(Clone, Copy, Debug, PartialEq, Eq, Structural)]
pub struct FrameletParameters {
    pub id: i32,
    pub cx: i64,
    pub cy: i64,
}

/// The intrinsics of each spectral channel.
pub fn framelet_parameters(channel: Channel) -> (r: FrameletParameters)
    ensures
        r.cx == CX_MICRO,
        r.id == (match channel {
            Channel::BLUE => crate::enums::JUNO_JUNOCAM_BLUE,
            Channel::GREEN => crate::enums::JUNO_JUNOCAM_GREEN,
            Channel::RED => crate::enums::JUNO_JUNOCAM_RED,
            Channel::METHANE => crate::enums::JUNO_JUNOCAM_METHANE,
        }),
        r.cy == (match channel {
            Channel::BLUE => CY_BLUE_MICRO,
            Channel::GREEN => CY_GREEN_MICRO,
            Channel::RED => CY_RED_MICRO,
            Channel::METHANE => CY_METHANE_MICRO,
        }),
        coord_ok(r.cx),
        coord_ok(r.cy),
{
    match channel {
        Channel::BLUE => FrameletParameters {
            id: crate::enums::JUNO_JUNOCAM_BLUE,
            cx: CX_MICRO,
            cy: CY_BLUE_MICRO,
        },
        Channel::GREEN => FrameletParameters {
            id: crate::enums::JUNO_JUNOCAM_GREEN,
            cx: CX_MICRO,
            cy: CY_GREEN_MICRO,
        },
        Channel::RED => FrameletParameters {
            id: crate::enums::JUNO_JUNOCAM_RED,
            cx: CX_MICRO,
            cy: CY_RED_MICRO,
        },
        Channel::METHANE => FrameletParameters {
            id: crate::enums::JUNO_JUNOCAM_METHANE,
            cx: CX_MICRO,
            cy: CY_METHANE_MICRO,
        },
    }
}

impl FrameletParameters {
    /// Focal length over pixel size, in micropixels.
    pub fn fl(&self) -> (r: i64)
        ensures
            r == FL_MICRO,
    {
        FL_MICRO
    }

    /// Applies the forward radial distortion once.
    pub fn distort(&self, c0: i64, c1: i64) -> (r: (i64, i64))
        requires
            coord_ok(c0),
            coord_ok(c1),
        ensures
            r == spec_distort(c0, c1),
            coord_ok(r.0),
            coord_ok(r.1),
    {
        let r2 = r2_exec(c0, c1);
        let dr = dr_exec(r2);
        proof {
            crate::buffer::lemma_mul_abs_bound(c0 as int, dr as int, COORD_LIMIT as int,
                0x3_0000_0000int);
            crate::buffer::lemma_mul_abs_bound(c1 as int, dr as int, COORD_LIMIT as int,
                0x3_0000_0000int);
        }
        let xn: i128 = (c0 as i128) * dr;
        let yn: i128 = (c1 as i128) * dr;
        let xd = div_coord(xn, COORD_SCALE as i128);
        let yd = div_coord(yn, COORD_SCALE as i128);
        (xd, yd)
    }

    /// Recovers approximate pre-distortion coordinates by the fixed
    /// five-iteration refinement.
    pub fn undistort(&self, c0: i64, c1: i64) -> (r: (i64, i64))
        requires
            coord_ok(c0),
            coord_ok(c1),
        ensures
            r == spec_undistort_iter(c0, c1, 5),
            coord_ok(r.0),
            coord_ok(r.1),
    {
        let mut xd = c0;
        let mut yd = c1;
        let mut i: usize = 0;
        while i < 5
            invariant
                i <= 5,
                coord_ok(c0),
                coord_ok(c1),
                coord_ok(xd),
                coord_ok(yd),
                (xd, yd) == spec_undistort_iter(c0, c1, i as nat),
            decreases 5 - i,
        {
            let r2 = r2_exec(xd, yd);
            let dr = dr_exec(r2);
            if dr > 0 {
                proof {
                    crate::buffer::lemma_mul_abs_bound(c0 as int, COORD_SCALE as int,
                        COORD_LIMIT as int, COORD_SCALE as int);
                    crate::buffer::lemma_mul_abs_bound(c1 as int, COORD_SCALE as int,
                        COORD_LIMIT as int, COORD_SCALE as int);
                }
                let xn: i128 = (c0 as i128) * (COORD_SCALE as i128);
                let yn: i128 = (c1 as i128) * (COORD_SCALE as i128);
                xd = div_coord(xn, dr);
                yd = div_coord(yn, dr);
            }
            i = i + 1;
        }
        (xd, yd)
    }

    /// The camera-frame direction a framelet coordinate looks along:
    /// undistort around the principal point, then aim a ray through the
    /// focal plane.
    pub fn xy_to_vector(&self, x: i64, y: i64) -> (r: Vector)
        requires
            coord_ok(self.cx),
            coord_ok(self.cy),
            -COORD_LIMIT + self.cx <= x <= COORD_LIMIT + self.cx,
            -COORD_LIMIT + self.cy <= y <= COORD_LIMIT + self.cy,
        ensures
            ({
                let cam = spec_undistort_iter((x - self.cx) as i64, (y - self.cy) as i64, 5);
                r == (Vector { x: cam.0, y: cam.1, z: FL_MICRO })
            }),
            coord_ok(r.x),
            coord_ok(r.y),
    {
        let cam0 = x - self.cx;
        let cam1 = y - self.cy;
        let cam = self.undistort(cam0, cam1);
        Vector { x: cam.0, y: cam.1, z: FL_MICRO }
    }

    /// The framelet coordinate a camera-frame direction projects onto:
    /// scale the ray to the focal plane, distort, then offset by the
    /// principal point. A ray grazing the focal plane (scale factor zero)
    /// maps to the principal point.
    pub fn vector_to_xy(&self, v: &Vector) -> (r: (i64, i64))
        requires
            coord_ok(self.cx),
            coord_ok(self.cy),
            coord_ok(v.x),
            coord_ok(v.y),
            coord_ok(v.z),
        ensures
            ({
                let alpha = div_trunc(v.z * COORD_SCALE, FL_MICRO as int);
                if alpha == 0 {
                    r == (self.cx, self.cy)
                } else {
                    let cam0 = clamp_coord(div_trunc(v.x * COORD_SCALE, alpha));
                    let cam1 = clamp_coord(div_trunc(v.y * COORD_SCALE, alpha));
                    let cam = spec_distort(cam0, cam1);
                    r == (((cam.0 + self.cx) as i64), ((cam.1 + self.cy) as i64))
                }
            }),
    {
        proof {
            crate::buffer::lemma_mul_abs_bound(v.z as int, COORD_SCALE as int, COORD_LIMIT as int,
                COORD_SCALE as int);
            crate::buffer::lemma_mul_abs_bound(v.x as int, COORD_SCALE as int, COORD_LIMIT as int,
                COORD_SCALE as int);
            crate::buffer::lemma_mul_abs_bound(v.y as int, COORD_SCALE as int, COORD_LIMIT as int,
                COORD_SCALE as int);
        }
        let zn: i128 = (v.z as i128) * (COORD_SCALE as i128);
        let neg = zn < 0;
        let uz: u128 = if neg {
            (-zn) as u128
        } else {
            zn as u128
        };
        let qa: u128 = uz / (FL_MICRO as u128);
        proof {
            vstd::arithmetic::div_mod::lemma_div_pos_is_pos(uz as int, FL_MICRO as int);
            vstd::arithmetic::div_mod::lemma_div_is_ordered_by_denominator(uz as int, 1,
                FL_MICRO as int);
            vstd::arithmetic::div_mod::lemma_div_basics(uz as int);
        }
        let alpha: i128 = if neg {
            -(qa as i128)
        } else {
            qa as i128
        };
        if alpha == 0 {
            return (self.cx, self.cy);
        }
        let aden: i128 = if alpha < 0 {
            -alpha
        } else {
            alpha
        };
        let xn: i128 = (v.x as i128) * (COORD_SCALE as i128);
        let yn: i128 = (v.y as i128) * (COORD_SCALE as i128);
        let cam0 = div_coord(if alpha < 0 { -xn } else { xn }, aden);
        let cam1 = div_coord(if alpha < 0 { -yn } else { yn }, aden);
        proof {
            lemma_div_trunc_sign_flip(v.x as int * COORD_SCALE, alpha as int);
            lemma_div_trunc_sign_flip(v.y as int * COORD_SCALE, alpha as int);
        }
        let cam = self.distort(cam0, cam1);
        (cam.0 + self.cx, cam.1 + self.cy)
    }
}

/// Truncating division is invariant under flipping both signs.
proof fn lemma_div_trunc_sign_flip(a: int, b: int)
    requires
        b != 0,
    ensures
        div_trunc(-a, -b) == div_trunc(a, b),
{
}

} // verus!
