//! Map projections from directions onto output-raster coordinates.
//!
//! The projection variants form a closed set: an equirectangular
//! (cylindrical) map over a latitude/longitude window, and an equisolid
//! fisheye over a square field. Angles arrive in microdegrees, already
//! extracted from a direction vector by the host program's trigonometry;
//! everything after that — the linear map onto the raster and the
//! wrap-around reduction — is exact integer arithmetic here.

use vstd::prelude::*;

use vstd::string::StrSliceExecFns;

use crate::buffer::div_trunc;

verus! {

/// One microdegree: angles carry six decimal places.
pub const ANGLE_SCALE: i64 = 1000000;

/// Largest angle magnitude accepted, in microdegrees.
pub const ANGLE_LIMIT: i64 = 360000000;

/// A latitude/longitude pair in microdegrees.
#[derive(Clone, Copy, Debug, PartialEq, Eq, Structural)]
pub struct LatLon {
    pub lat: i64,
    pub lon: i64,
}

/// A projected output-raster coordinate in whole pixels.
#[derive(Clone, Copy, Debug, PartialEq, Eq, Structural)]
pub struct MapPoint {
    pub x: usize,
    pub y: usize,
}

/// Euclidean remainder: the unique value in `[0, m)` congruent to `v`.
pub open spec fn wrap_mod(v: int, m: int) -> int
    recommends
        m > 0,
{
    v % m
}

/// Reduces a value into `[0, m)` by repeatedly adding or subtracting `m`,
/// as the projection's wrap-around correction does.
fn wrap_into_range(v0: i128, m: i64) -> (r: i64)
    requires
        0 < m,
        -0x4000_0000_0000_0000_0000 <= v0 <= 0x4000_0000_0000_0000_0000,
    ensures
        0 <= r < m,
        r == wrap_mod(v0 as int, m as int),
{
    let mut v: i128 = v0;
    while v < 0
        invariant
            0 < m,
            v <= 0x4000_0000_0000_0000_0000 + m,
            wrap_mod(v as int, m as int) == wrap_mod(v0 as int, m as int),
        decreases (if v < 0 {
            -(v as int)
        } else {
            0int
        }),
    {
        proof {
            vstd::arithmetic::div_mod::lemma_mod_add_multiples_vanish(v as int, m as int);
        }
        v = v + (m as i128);
    }
    while v >= (m as i128)
        invariant
            0 <= v,
            0 < m,
            wrap_mod(v as int, m as int) == wrap_mod(v0 as int, m as int),
        decreases v,
    {
        proof {
            vstd::arithmetic::div_mod::lemma_mod_sub_multiples_vanish(v as int, m as int);
        }
        v = v - (m as i128);
    }
    proof {
        vstd::arithmetic::div_mod::lemma_small_mod(v as nat, m as nat);
    }
    v as i64
}

/// An equirectangular (cylindrical) projection onto a latitude window
/// `[bottom_lat, top_lat]` and longitude window `[left_lon, right_lon]`.
#[derive(Clone, Copy, Debug, PartialEq, Eq, Structural)]
pub struct CylindricalLens {
    pub image_width: usize,
    pub image_height: usize,
    pub top_lat: i64,
    pub bottom_lat: i64,
    pub left_lon: i64,
    pub right_lon: i64,
}

impl CylindricalLens {
    /// The projection is usable: positive raster dimensions within machine
    /// range, bounded angles, and windows of nonzero extent.
    pub open spec fn wf(&self) -> bool {
        &&& 0 < self.image_width <= 0x10000000
        &&& 0 < self.image_height <= 0x10000000
        &&& -ANGLE_LIMIT <= self.bottom_lat < self.top_lat <= ANGLE_LIMIT
        &&& -ANGLE_LIMIT <= self.left_lon < self.right_lon <= ANGLE_LIMIT
    }

    /// Creates the projection over the given windows.
    pub fn new(
        image_width: usize,
        image_height: usize,
        top_lat: i64,
        bottom_lat: i64,
        left_lon: i64,
        right_lon: i64,
    ) -> (r: CylindricalLens)
        requires
            0 < image_width <= 0x10000000,
            0 < image_height <= 0x10000000,
            -ANGLE_LIMIT <= bottom_lat < top_lat <= ANGLE_LIMIT,
            -ANGLE_LIMIT <= left_lon < right_lon <= ANGLE_LIMIT,
        ensures
            r.wf(),
            r.image_width == image_width,
            r.image_height == image_height,
            r.top_lat == top_lat,
            r.bottom_lat == bottom_lat,
            r.left_lon == left_lon,
            r.right_lon == right_lon,
    {
        CylindricalLens { image_width, image_height, top_lat, bottom_lat, left_lon, right_lon }
    }

    /// The raster row a latitude maps to, before wrap-around.
    pub open spec fn spec_raw_y(&self, lat: i64) -> int {
        div_trunc((lat - self.bottom_lat) * self.image_height, self.top_lat - self.bottom_lat)
    }

    /// The raster column a longitude maps to, before wrap-around.
    pub open spec fn spec_raw_x(&self, lon: i64) -> int {
        div_trunc((lon - self.left_lon) * self.image_width, self.right_lon - self.left_lon)
    }

    /// Law (in-range projection): maps an angle pair onto the raster by the
    /// linear window map followed by wrap-around; for every input — any
    /// longitude however far around the sphere — the result lies within
    /// `[0, width) x [0, height)`.
    pub fn latlon_to_point(&self, ll: &LatLon) -> (r: MapPoint)
        requires
            self.wf(),
            -ANGLE_LIMIT <= ll.lat <= ANGLE_LIMIT,
            -ANGLE_LIMIT <= ll.lon <= ANGLE_LIMIT,
        ensures
            r.x < self.image_width,
            r.y < self.image_height,
            r.x == wrap_mod(self.spec_raw_x(ll.lon), self.image_width as int),
            r.y == wrap_mod(self.spec_raw_y(ll.lat), self.image_height as int),
    {
        let h = self.image_height as i64;
        let w = self.image_width as i64;
        let ydiv = self.top_lat - self.bottom_lat;
        let xdiv = self.right_lon - self.left_lon;
        proof {
            crate::buffer::lemma_mul_abs_bound((ll.lat - self.bottom_lat) as int, h as int,
                2 * ANGLE_LIMIT as int, 0x10000000int);
            crate::buffer::lemma_mul_abs_bound((ll.lon - self.left_lon) as int, w as int,
                2 * ANGLE_LIMIT as int, 0x10000000int);
        }
        let yn: i128 = ((ll.lat - self.bottom_lat) as i128) * (h as i128);
        let xn: i128 = ((ll.lon - self.left_lon) as i128) * (w as i128);
        let ry = div_wide(yn, ydiv as i128);
        let rx = div_wide(xn, xdiv as i128);
        let y = wrap_into_range(ry, h);
        let x = wrap_into_range(rx, w);
        MapPoint { x: x as usize, y: y as usize }
    }
}

/// Truncating division of a bounded wide value by a positive divisor.
fn div_wide(num: i128, den: i128) -> (r: i128)
    requires
        0 < den,
        -0x4000_0000_0000_0000_0000 <= num <= 0x4000_0000_0000_0000_0000,
    ensures
        r == div_trunc(num as int, den as int),
        -0x4000_0000_0000_0000_0000 <= r <= 0x4000_0000_0000_0000_0000,
{
    let un: u128 = if num < 0 {
        (-num) as u128
    } else {
        num as u128
    };
    let q: u128 = un / (den as u128);
    proof {
        vstd::arithmetic::div_mod::lemma_div_pos_is_pos(un as int, den as int);
        vstd::arithmetic::div_mod::lemma_div_is_ordered_by_denominator(un as int, 1, den as int);
        vstd::arithmetic::div_mod::lemma_div_basics(un as int);
    }
    if num < 0 {
        -(q as i128)
    } else {
        q as i128
    }
}

/// An equisolid fisheye projection onto a centered square field.
#[derive(Clone, Copy, Debug, PartialEq, Eq, Structural)]
pub struct FisheyeEquisolidLens {
    pub image_width: usize,
    pub image_height: usize,
    pub focal_length_micro: i64,
    pub field_of_view_micro: i64,
}

impl FisheyeEquisolidLens {
    /// The projection is usable.
    pub open spec fn wf(&self) -> bool {
        &&& 0 < self.image_width <= 0x10000000
        &&& 0 < self.image_height <= 0x10000000
        &&& 0 < self.field_of_view_micro <= ANGLE_LIMIT
    }

    /// Creates the projection for the given field of view.
    pub fn new(
        image_width: usize,
        image_height: usize,
        focal_length_micro: i64,
        field_of_view_micro: i64,
    ) -> (r: FisheyeEquisolidLens)
        requires
            0 < image_width <= 0x10000000,
            0 < image_height <= 0x10000000,
            0 < field_of_view_micro <= ANGLE_LIMIT,
        ensures
            r.wf(),
            r.image_width == image_width,
            r.image_height == image_height,
            r.focal_length_micro == focal_length_micro,
            r.field_of_view_micro == field_of_view_micro,
    {
        FisheyeEquisolidLens { image_width, image_height, focal_length_micro, field_of_view_micro }
    }

    /// The side of the square field: the smaller raster dimension.
    pub open spec fn spec_field_width(&self) -> int {
        if self.image_width > self.image_height {
            self.image_height as int
        } else {
            self.image_width as int
        }
    }

    /// Places normalized field coordinates `(u, v)` (in millionths of the
    /// field side, `v` measured upward) onto the raster: the field is
    /// scaled to the smaller dimension and centered in the larger, and `v`
    /// is inverted because raster row zero is the top. Coordinates outside
    /// the unit field report `None`.
    pub fn uv_to_point(&self, u: i64, v: i64) -> (r: Option<MapPoint>)
        requires
            self.wf(),
        ensures
            r is Some <==> 0 <= u < ANGLE_SCALE && 0 <= v < ANGLE_SCALE,
            r matches Some(pt) ==> {
                let fw = self.spec_field_width();
                let xa = if self.image_width > self.image_height {
                    (self.image_width - self.image_height) as int / 2
                } else {
                    0int
                };
                let ya = if self.image_height > self.image_width {
                    (self.image_height - self.image_width) as int / 2
                } else {
                    0int
                };
                &&& pt.x == u * fw / (ANGLE_SCALE as int) + xa
                &&& pt.y == (ANGLE_SCALE - v) * fw / (ANGLE_SCALE as int) + ya
                &&& pt.x < self.image_width
                &&& pt.y <= self.image_height
            },
    {
        if !(0 <= u && u < ANGLE_SCALE && 0 <= v && v < ANGLE_SCALE) {
            return None;
        }
        let fw: usize = if self.image_width > self.image_height {
            self.image_height
        } else {
            self.image_width
        };
        let x_adjust: usize = if self.image_width > self.image_height {
            (self.image_width - self.image_height) / 2
        } else {
            0
        };
        let y_adjust: usize = if self.image_height > self.image_width {
            (self.image_height - self.image_width) / 2
        } else {
            0
        };
        proof {
            crate::buffer::lemma_mul_abs_bound(u as int, fw as int, ANGLE_SCALE as int,
                0x10000000int);
            crate::buffer::lemma_mul_abs_bound((ANGLE_SCALE - v) as int, fw as int,
                ANGLE_SCALE as int, 0x10000000int);
            vstd::arithmetic::div_mod::lemma_div_pos_is_pos(u as int * fw as int,
                ANGLE_SCALE as int);
            vstd::arithmetic::div_mod::lemma_div_pos_is_pos((ANGLE_SCALE - v) as int * fw as int,
                ANGLE_SCALE as int);
            vstd::arithmetic::mul::lemma_mul_inequality(u as int, ANGLE_SCALE - 1,
                fw as int);
            vstd::arithmetic::mul::lemma_mul_inequality((ANGLE_SCALE - v) as int,
                ANGLE_SCALE as int, fw as int);
            vstd::arithmetic::div_mod::lemma_div_is_ordered((u as int) * (fw as int),
                (ANGLE_SCALE - 1) * fw as int, ANGLE_SCALE as int);
            vstd::arithmetic::div_mod::lemma_div_is_ordered(((ANGLE_SCALE - v) as int) * (
            fw as int), (ANGLE_SCALE as int) * fw as int, ANGLE_SCALE as int);
            vstd::arithmetic::div_mod::lemma_div_multiples_vanish(fw as int, ANGLE_SCALE as int);
            lemma_scaled_floor_below(fw as int);
        }
        let px: u128 = ((u as u128) * (fw as u128)) / (ANGLE_SCALE as u128);
        let py: u128 = (((ANGLE_SCALE - v) as u128) * (fw as u128)) / (ANGLE_SCALE as u128);
        let x = (px as usize) + x_adjust;
        let y = (py as usize) + y_adjust;
        Some(MapPoint { x, y })
    }
}

/// Scaling by a proper fraction of the angle scale stays below the field
/// side: `(s - 1) * fw / s < fw`.
proof fn lemma_scaled_floor_below(fw: int)
    requires
        0 <= fw,
    ensures
        (ANGLE_SCALE - 1) * fw / (ANGLE_SCALE as int) < fw || fw == 0,
{
    if fw > 0 {
        vstd::arithmetic::div_mod::lemma_div_multiples_vanish(fw, ANGLE_SCALE as int);
        assert((ANGLE_SCALE as int) * fw == ANGLE_SCALE * fw) by (nonlinear_arith);
        assert((ANGLE_SCALE - 1) * fw < ANGLE_SCALE * fw) by (nonlinear_arith)
            requires
                fw > 0,
        ;
        vstd::arithmetic::div_mod::lemma_div_by_multiple_is_strongly_ordered(
            (ANGLE_SCALE - 1) * fw, ANGLE_SCALE * fw, fw, ANGLE_SCALE as int);
    }
}

/// The supported projection variants.
#[derive(Clone, Copy, Debug, PartialEq, Eq, Structural)]
pub enum SupportedLens {
    Cylindrical,
    Fisheye,
}

/// The character code of `c` with ASCII uppercase folded to lowercase.
pub open spec fn lower_code(c: char) -> u32 {
    if 65 <= c as u32 <= 90 {
        (c as u32 + 32) as u32
    } else {
        c as u32
    }
}

/// The two sequences name the same word up to ASCII case.
pub open spec fn eq_ignore_case(a: Seq<char>, b: Seq<char>) -> bool {
    a.map_values(|c: char| lower_code(c)) == b.map_values(|c: char| lower_code(c))
}

/// Compares two string slices ignoring ASCII case.
fn str_eq_ignore_case(a: &str, b: &str) -> (r: bool)
    ensures
        r == eq_ignore_case(a@, b@),
{
    let n = a.unicode_len();
    let m = b.unicode_len();
    let ghost la = a@.map_values(|c: char| lower_code(c));
    let ghost lb = b@.map_values(|c: char| lower_code(c));
    if n != m {
        proof {
            assert(la.len() != lb.len());
        }
        return false;
    }
    let mut i: usize = 0;
    while i < n
        invariant
            i <= n,
            n == a@.len(),
            n == b@.len(),
            la == a@.map_values(|c: char| lower_code(c)),
            lb == b@.map_values(|c: char| lower_code(c)),
            forall|j: int| 0 <= j < i ==> la[j] == lb[j],
        decreases n - i,
    {
        let ca = a.get_char(i);
        let cb = b.get_char(i);
        let la_i: u32 = if 65 <= (ca as u32) && (ca as u32) <= 90 {
            (ca as u32) + 32
        } else {
            ca as u32
        };
        let lb_i: u32 = if 65 <= (cb as u32) && (cb as u32) <= 90 {
            (cb as u32) + 32
        } else {
            cb as u32
        };
        if la_i != lb_i {
            proof {
                assert(la[i as int] != lb[i as int]);
                if la == lb {
                    assert(la[i as int] == lb[i as int]);
                }
            }
            return false;
        }
        i = i + 1;
    }
    proof {
        assert(la =~= lb);
    }
    true
}

/// The projection a configuration string names, ignoring ASCII case.
pub open spec fn spec_lens_from(s: Seq<char>) -> Option<SupportedLens> {
    if eq_ignore_case(s, "cylindrical"@) {
        Some(SupportedLens::Cylindrical)
    } else if eq_ignore_case(s, "fisheye"@) {
        Some(SupportedLens::Fisheye)
    } else {
        None
    }
}

impl SupportedLens {
    /// Parses a projection name from configuration, ignoring ASCII case.
    pub fn from(s: &str) -> (r: Option<SupportedLens>)
        ensures
            r == spec_lens_from(s@),
    {
        if str_eq_ignore_case(s, "cylindrical") {
            Some(SupportedLens::Cylindrical)
        } else if str_eq_ignore_case(s, "fisheye") {
            Some(SupportedLens::Fisheye)
        } else {
            None
        }
    }
}

} // verus!
