//! The output map raster and the quadrilateral paint engine.
//!
//! Reprojection paints each source pixel's quadrilateral footprint into one
//! channel of an RGB accumulation raster. Overlapping footprints are
//! resolved by last writer wins: painting carries no blending, so the caller
//! fixes the outcome by the order of its paint calls (acquisition order,
//! then channel order, then raster scan order). A policy switch lets quads
//! wrap across the raster's horizontal seam, as a full-sphere
//! equirectangular map needs; a bounded fisheye field leaves it off.

use vstd::prelude::*;

use crate::buffer::{clamp_sample, in_sample_range, seq_max, seq_min, ImageBuffer, SAMPLE_MAX};
use crate::error::Error;

verus! {

/// Largest corner coordinate magnitude and raster dimension the painter
/// accepts.
pub const PAINT_LIMIT: i64 = 0x10000000;

/// A quadrilateral corner in output-raster coordinates.
#[derive(Clone, Copy, Debug, PartialEq, Eq, Structural)]
pub struct Corner {
    pub x: i64,
    pub y: i64,
}

/// A projected quadrilateral: the four corners of one source pixel's
/// footprint, in top-left, bottom-left, bottom-right, top-right order.
#[derive(Clone, Copy, Debug, PartialEq, Eq, Structural)]
pub struct Quad {
    pub tl: Corner,
    pub bl: Corner,
    pub br: Corner,
    pub tr: Corner,
}

/// Twice the signed area of the triangle `(a, b, p)`: positive when `p`
/// lies left of the directed edge `a -> b`.
pub open spec fn edge_side(a: Corner, b: Corner, px: int, py: int) -> int {
    (b.x - a.x) * (py - a.y) - (b.y - a.y) * (px - a.x)
}

/// The point lies inside (or on the boundary of) the convex quadrilateral:
/// it is on one common side of all four directed edges, either winding.
pub open spec fn quad_contains(q: Quad, px: int, py: int) -> bool {
    let c1 = edge_side(q.tl, q.bl, px, py);
    let c2 = edge_side(q.bl, q.br, px, py);
    let c3 = edge_side(q.br, q.tr, px, py);
    let c4 = edge_side(q.tr, q.tl, px, py);
    (c1 >= 0 && c2 >= 0 && c3 >= 0 && c4 >= 0) || (c1 <= 0 && c2 <= 0 && c3 <= 0 && c4 <= 0)
}

/// Smallest x coordinate among the corners.
pub open spec fn quad_min_x(q: Quad) -> int {
    vstd::math::min(
        vstd::math::min(q.tl.x as int, q.bl.x as int),
        vstd::math::min(q.br.x as int, q.tr.x as int),
    )
}

/// Largest x coordinate among the corners.
pub open spec fn quad_max_x(q: Quad) -> int {
    vstd::math::max(
        vstd::math::max(q.tl.x as int, q.bl.x as int),
        vstd::math::max(q.br.x as int, q.tr.x as int),
    )
}

/// Smallest y coordinate among the corners.
pub open spec fn quad_min_y(q: Quad) -> int {
    vstd::math::min(
        vstd::math::min(q.tl.y as int, q.bl.y as int),
        vstd::math::min(q.br.y as int, q.tr.y as int),
    )
}

/// Largest y coordinate among the corners.
pub open spec fn quad_max_y(q: Quad) -> int {
    vstd::math::max(
        vstd::math::max(q.tl.y as int, q.bl.y as int),
        vstd::math::max(q.br.y as int, q.tr.y as int),
    )
}

/// All corner coordinates are within the painter's working range.
pub open spec fn quad_ok(q: Quad) -> bool {
    &&& -PAINT_LIMIT <= q.tl.x <= PAINT_LIMIT && -PAINT_LIMIT <= q.tl.y <= PAINT_LIMIT
    &&& -PAINT_LIMIT <= q.bl.x <= PAINT_LIMIT && -PAINT_LIMIT <= q.bl.y <= PAINT_LIMIT
    &&& -PAINT_LIMIT <= q.br.x <= PAINT_LIMIT && -PAINT_LIMIT <= q.br.y <= PAINT_LIMIT
    &&& -PAINT_LIMIT <= q.tr.x <= PAINT_LIMIT && -PAINT_LIMIT <= q.tr.y <= PAINT_LIMIT
}

/// Whether `paint_quad_clipped` paints the cell `(px, py)`: the cell lies
/// in the quad's bounding box and inside the quad itself.
pub open spec fn paints(q: Quad, px: int, py: int) -> bool {
    &&& quad_min_x(q) <= px <= quad_max_x(q)
    &&& quad_min_y(q) <= py <= quad_max_y(q)
    &&& quad_contains(q, px, py)
}

/// The quad `q` shifted left by `s` columns.
pub open spec fn shift_quad(q: Quad, s: int) -> Quad {
    Quad {
        tl: Corner { x: (q.tl.x - s) as i64, y: q.tl.y },
        bl: Corner { x: (q.bl.x - s) as i64, y: q.bl.y },
        br: Corner { x: (q.br.x - s) as i64, y: q.br.y },
        tr: Corner { x: (q.tr.x - s) as i64, y: q.tr.y },
    }
}

/// The whole-width shift that brings the quad's left edge into `[0, w)`.
pub open spec fn seam_shift(q: Quad, w: int) -> int {
    quad_min_x(q) - (quad_min_x(q) % w)
}

/// Whether a paint call writes the cell `(px, py)`: without wrapping, the
/// quad must cover the cell directly; with wrapping, the quad is first
/// shifted by whole raster widths so its left edge lies on the raster, and
/// covers the cell either directly or one raster width to the right.
pub open spec fn spec_painted(q: Quad, w: int, wrap: bool, px: int, py: int) -> bool {
    if wrap {
        let qs = shift_quad(q, seam_shift(q, w));
        paints(qs, px, py) || paints(qs, px + w, py)
    } else {
        paints(q, px, py)
    }
}

/// The edge test of the containment predicate.
fn edge_side_exec(a: &Corner, b: &Corner, px: i64, py: i64) -> (r: i128)
    requires
        -4 * PAINT_LIMIT <= a.x <= 4 * PAINT_LIMIT,
        -4 * PAINT_LIMIT <= a.y <= 4 * PAINT_LIMIT,
        -4 * PAINT_LIMIT <= b.x <= 4 * PAINT_LIMIT,
        -4 * PAINT_LIMIT <= b.y <= 4 * PAINT_LIMIT,
        -4 * PAINT_LIMIT <= px <= 4 * PAINT_LIMIT,
        -4 * PAINT_LIMIT <= py <= 4 * PAINT_LIMIT,
    ensures
        r == edge_side(*a, *b, px as int, py as int),
{
    proof {
        crate::buffer::lemma_mul_abs_bound((b.x - a.x) as int, (py - a.y) as int,
            8 * PAINT_LIMIT as int, 8 * PAINT_LIMIT as int);
        crate::buffer::lemma_mul_abs_bound((b.y - a.y) as int, (px - a.x) as int,
            8 * PAINT_LIMIT as int, 8 * PAINT_LIMIT as int);
    }
    ((b.x as i128) - (a.x as i128)) * ((py as i128) - (a.y as i128)) - ((b.y as i128) - (
    a.y as i128)) * ((px as i128) - (a.x as i128))
}

/// The containment test of the painter.
fn quad_contains_exec(q: &Quad, px: i64, py: i64) -> (r: bool)
    requires
        -4 * PAINT_LIMIT <= q.tl.x <= 4 * PAINT_LIMIT,
        -4 * PAINT_LIMIT <= q.tl.y <= 4 * PAINT_LIMIT,
        -4 * PAINT_LIMIT <= q.bl.x <= 4 * PAINT_LIMIT,
        -4 * PAINT_LIMIT <= q.bl.y <= 4 * PAINT_LIMIT,
        -4 * PAINT_LIMIT <= q.br.x <= 4 * PAINT_LIMIT,
        -4 * PAINT_LIMIT <= q.br.y <= 4 * PAINT_LIMIT,
        -4 * PAINT_LIMIT <= q.tr.x <= 4 * PAINT_LIMIT,
        -4 * PAINT_LIMIT <= q.tr.y <= 4 * PAINT_LIMIT,
        -4 * PAINT_LIMIT <= px <= 4 * PAINT_LIMIT,
        -4 * PAINT_LIMIT <= py <= 4 * PAINT_LIMIT,
    ensures
        r == quad_contains(*q, px as int, py as int),
{
    let c1 = edge_side_exec(&q.tl, &q.bl, px, py);
    let c2 = edge_side_exec(&q.bl, &q.br, px, py);
    let c3 = edge_side_exec(&q.br, &q.tr, px, py);
    let c4 = edge_side_exec(&q.tr, &q.tl, px, py);
    (c1 >= 0 && c2 >= 0 && c3 >= 0 && c4 >= 0) || (c1 <= 0 && c2 <= 0 && c3 <= 0 && c4 <= 0)
}

/// Paints `value` into every raster cell of `band` that the quad covers,
/// clipping against the raster bounds; cells outside the quad keep their
/// samples.
fn paint_quad_clipped(band: &mut ImageBuffer, q: &Quad, value: i64) -> (r: ())
    requires
        old(band).wf(),
        old(band).width <= PAINT_LIMIT,
        old(band).height <= PAINT_LIMIT,
        -4 * PAINT_LIMIT <= q.tl.x <= 4 * PAINT_LIMIT,
        -4 * PAINT_LIMIT <= q.tl.y <= 4 * PAINT_LIMIT,
        -4 * PAINT_LIMIT <= q.bl.x <= 4 * PAINT_LIMIT,
        -4 * PAINT_LIMIT <= q.bl.y <= 4 * PAINT_LIMIT,
        -4 * PAINT_LIMIT <= q.br.x <= 4 * PAINT_LIMIT,
        -4 * PAINT_LIMIT <= q.br.y <= 4 * PAINT_LIMIT,
        -4 * PAINT_LIMIT <= q.tr.x <= 4 * PAINT_LIMIT,
        -4 * PAINT_LIMIT <= q.tr.y <= 4 * PAINT_LIMIT,
        in_sample_range(value),
    ensures
        final(band).wf(),
        final(band).width == old(band).width,
        final(band).height == old(band).height,
        forall|px: int, py: int|
            final(band).in_bounds(px, py) ==> final(band).sample_at(px, py) == (
            if paints(*q, px, py) {
                value
            } else {
                old(band).sample_at(px, py)
            }),
{
    let w = band.width as i64;
    let h = band.height as i64;
    let minx4 = if q.tl.x < q.bl.x {
        q.tl.x
    } else {
        q.bl.x
    };
    let minx4 = if minx4 < q.br.x {
        minx4
    } else {
        q.br.x
    };
    let minx4 = if minx4 < q.tr.x {
        minx4
    } else {
        q.tr.x
    };
    let maxx4 = if q.tl.x > q.bl.x {
        q.tl.x
    } else {
        q.bl.x
    };
    let maxx4 = if maxx4 > q.br.x {
        maxx4
    } else {
        q.br.x
    };
    let maxx4 = if maxx4 > q.tr.x {
        maxx4
    } else {
        q.tr.x
    };
    let miny4 = if q.tl.y < q.bl.y {
        q.tl.y
    } else {
        q.bl.y
    };
    let miny4 = if miny4 < q.br.y {
        miny4
    } else {
        q.br.y
    };
    let miny4 = if miny4 < q.tr.y {
        miny4
    } else {
        q.tr.y
    };
    let maxy4 = if q.tl.y > q.bl.y {
        q.tl.y
    } else {
        q.bl.y
    };
    let maxy4 = if maxy4 > q.br.y {
        maxy4
    } else {
        q.br.y
    };
    let maxy4 = if maxy4 > q.tr.y {
        maxy4
    } else {
        q.tr.y
    };
    let x0: i64 = if minx4 < 0 {
        0
    } else {
        minx4
    };
    let x1: i64 = if maxx4 >= w {
        w - 1
    } else {
        maxx4
    };
    let y0: i64 = if miny4 < 0 {
        0
    } else {
        miny4
    };
    let y1: i64 = if maxy4 >= h {
        h - 1
    } else {
        maxy4
    };
    if x0 > x1 || y0 > y1 {
        proof {
            assert forall|px: int, py: int|
                band.in_bounds(px, py) implies band.sample_at(px, py) == (if paints(*q, px, py) {
                value
            } else {
                old(band).sample_at(px, py)
            }) by {}
        }
        return ;
    }
    let ghost orig = *band;
    let mut y: i64 = y0;
    while y <= y1
        invariant
            y0 <= y <= y1 + 1,
            band.wf(),
            band.width == orig.width,
            band.height == orig.height,
            orig.wf(),
            band.width <= PAINT_LIMIT,
            band.height <= PAINT_LIMIT,
            w == band.width,
            h == band.height,
            0 <= x0 <= x1 < w,
            0 <= y0 <= y1 + 1,
            y1 < h,
            minx4 == quad_min_x(*q),
            maxx4 == quad_max_x(*q),
            miny4 == quad_min_y(*q),
            maxy4 == quad_max_y(*q),
            x0 == vstd::math::max(minx4 as int, 0),
            x1 == vstd::math::min(maxx4 as int, w - 1),
            y0 == vstd::math::max(miny4 as int, 0),
            y1 == vstd::math::min(maxy4 as int, h - 1),
            -4 * PAINT_LIMIT <= q.tl.x <= 4 * PAINT_LIMIT,
            -4 * PAINT_LIMIT <= q.tl.y <= 4 * PAINT_LIMIT,
            -4 * PAINT_LIMIT <= q.bl.x <= 4 * PAINT_LIMIT,
            -4 * PAINT_LIMIT <= q.bl.y <= 4 * PAINT_LIMIT,
            -4 * PAINT_LIMIT <= q.br.x <= 4 * PAINT_LIMIT,
            -4 * PAINT_LIMIT <= q.br.y <= 4 * PAINT_LIMIT,
            -4 * PAINT_LIMIT <= q.tr.x <= 4 * PAINT_LIMIT,
            -4 * PAINT_LIMIT <= q.tr.y <= 4 * PAINT_LIMIT,
            in_sample_range(value),
            forall|px: int, py: int|
                band.in_bounds(px, py) ==> #[trigger] band.sample_at(px, py) == (
                if py < y && paints(*q, px, py) {
                    value
                } else {
                    orig.sample_at(px, py)
                }),
        decreases y1 + 1 - y,
    {
        let mut x: i64 = x0;
        while x <= x1
            invariant
                x0 <= x <= x1 + 1,
                y0 <= y <= y1,
                band.wf(),
                band.width == orig.width,
                band.height == orig.height,
                orig.wf(),
                band.width <= PAINT_LIMIT,
                band.height <= PAINT_LIMIT,
                w == band.width,
                h == band.height,
                0 <= x0 <= x1 < w,
                0 <= y0,
                y1 < h,
                minx4 == quad_min_x(*q),
                maxx4 == quad_max_x(*q),
                miny4 == quad_min_y(*q),
                maxy4 == quad_max_y(*q),
                x0 == vstd::math::max(minx4 as int, 0),
                x1 == vstd::math::min(maxx4 as int, w - 1),
                y0 == vstd::math::max(miny4 as int, 0),
                y1 == vstd::math::min(maxy4 as int, h - 1),
                -4 * PAINT_LIMIT <= q.tl.x <= 4 * PAINT_LIMIT,
                -4 * PAINT_LIMIT <= q.tl.y <= 4 * PAINT_LIMIT,
                -4 * PAINT_LIMIT <= q.bl.x <= 4 * PAINT_LIMIT,
                -4 * PAINT_LIMIT <= q.bl.y <= 4 * PAINT_LIMIT,
                -4 * PAINT_LIMIT <= q.br.x <= 4 * PAINT_LIMIT,
                -4 * PAINT_LIMIT <= q.br.y <= 4 * PAINT_LIMIT,
                -4 * PAINT_LIMIT <= q.tr.x <= 4 * PAINT_LIMIT,
                -4 * PAINT_LIMIT <= q.tr.y <= 4 * PAINT_LIMIT,
                in_sample_range(value),
                forall|px: int, py: int|
                    band.in_bounds(px, py) ==> #[trigger] band.sample_at(px, py) == (
                    if (py < y || (py == y && px < x)) && paints(*q, px, py) {
                        value
                    } else {
                        orig.sample_at(px, py)
                    }),
            decreases x1 + 1 - x,
        {
            if quad_contains_exec(q, x, y) {
                let ghost prev = *band;
                let rr = band.put(x as usize, y as usize, value);
                proof {
                    assert(rr is Ok);
                    crate::buffer::lemma_raster_index_bound(x as int, y as int, w as int,
                        h as int);
                    assert forall|px: int, py: int|
                        band.in_bounds(px, py) implies #[trigger] band.sample_at(px, py) == (
                    if (py < y || (py == y && px < x + 1)) && paints(*q, px, py) {
                        value
                    } else {
                        orig.sample_at(px, py)
                    }) by {
                        crate::buffer::lemma_raster_index_bound(px, py, w as int, h as int);
                        if crate::buffer::raster_index(px, py, w as int)
                            == crate::buffer::raster_index(x as int, y as int, w as int) {
                            crate::buffer::lemma_raster_index_injective(px, py, x as int,
                                y as int, w as int);
                        } else {
                            assert(band.sample_at(px, py) == prev.sample_at(px, py));
                        }
                    }
                }
            } else {
                proof {
                    assert forall|px: int, py: int|
                        band.in_bounds(px, py) implies #[trigger] band.sample_at(px, py) == (
                    if (py < y || (py == y && px < x + 1)) && paints(*q, px, py) {
                        value
                    } else {
                        orig.sample_at(px, py)
                    }) by {
                        if px == x && py == y {
                            assert(!quad_contains(*q, px, py));
                        }
                    }
                }
            }
            x = x + 1;
        }
        proof {
            assert forall|px: int, py: int|
                band.in_bounds(px, py) implies #[trigger] band.sample_at(px, py) == (
            if py < y + 1 && paints(*q, px, py) {
                value
            } else {
                orig.sample_at(px, py)
            }) by {
                if py == y && paints(*q, px, py) {
                    assert(x0 <= px <= x1);
                }
            }
        }
        y = y + 1;
    }
    proof {
        assert forall|px: int, py: int|
            band.in_bounds(px, py) implies #[trigger] band.sample_at(px, py) == (
        if paints(*q, px, py) {
            value
        } else {
            orig.sample_at(px, py)
        }) by {
            if paints(*q, px, py) {
                assert(y0 <= py <= y1);
            }
        }
    }
}

/// Shifting a quad left by `s` moves its covered cells left by `s`.
proof fn lemma_shift_paints(q: Quad, s: int, px: int, py: int)
    requires
        -8 * PAINT_LIMIT <= q.tl.x - s <= 8 * PAINT_LIMIT,
        -8 * PAINT_LIMIT <= q.bl.x - s <= 8 * PAINT_LIMIT,
        -8 * PAINT_LIMIT <= q.br.x - s <= 8 * PAINT_LIMIT,
        -8 * PAINT_LIMIT <= q.tr.x - s <= 8 * PAINT_LIMIT,
    ensures
        paints(shift_quad(q, s), px, py) == paints(q, px + s, py),
{
    let qs = shift_quad(q, s);
    assert(edge_side(qs.tl, qs.bl, px, py) == edge_side(q.tl, q.bl, px + s, py))
        by (nonlinear_arith)
        requires
            qs.tl.x == q.tl.x - s && qs.bl.x == q.bl.x - s && qs.tl.y == q.tl.y && qs.bl.y
                == q.bl.y,
    ;
    assert(edge_side(qs.bl, qs.br, px, py) == edge_side(q.bl, q.br, px + s, py))
        by (nonlinear_arith)
        requires
            qs.bl.x == q.bl.x - s && qs.br.x == q.br.x - s && qs.bl.y == q.bl.y && qs.br.y
                == q.br.y,
    ;
    assert(edge_side(qs.br, qs.tr, px, py) == edge_side(q.br, q.tr, px + s, py))
        by (nonlinear_arith)
        requires
            qs.br.x == q.br.x - s && qs.tr.x == q.tr.x - s && qs.br.y == q.br.y && qs.tr.y
                == q.tr.y,
    ;
    assert(edge_side(qs.tr, qs.tl, px, py) == edge_side(q.tr, q.tl, px + s, py))
        by (nonlinear_arith)
        requires
            qs.tr.x == q.tr.x - s && qs.tl.x == q.tl.x - s && qs.tr.y == q.tr.y && qs.tl.y
                == q.tl.y,
    ;
}

/// One cell of a linear range map: `[src_min, src_max]` onto `[0, hi]`,
/// truncating toward zero; an empty source range maps everything to zero.
pub open spec fn rescale_sample(v: i64, src_min: i64, src_max: i64, hi: i64) -> i64 {
    if src_max <= src_min {
        0
    } else {
        clamp_sample((v - src_min) * hi / (src_max - src_min))
    }
}

/// A whole raster rescaled from `[src_min, src_max]` onto `[0, hi]`.
pub open spec fn spec_rescale(s: Seq<i64>, src_min: i64, src_max: i64, hi: i64) -> Seq<i64> {
    Seq::new(s.len(), |i: int| rescale_sample(s[i], src_min, src_max, hi))
}

/// Rescales one sample.
fn rescale_exec(v: i64, src_min: i64, src_max: i64, hi: i64) -> (r: i64)
    requires
        in_sample_range(src_min),
        in_sample_range(src_max),
        src_min <= v <= src_max,
        0 <= hi <= SAMPLE_MAX,
    ensures
        r == rescale_sample(v, src_min, src_max, hi),
        0 <= r <= hi,
{
    if src_max <= src_min {
        return 0;
    }
    proof {
        crate::buffer::lemma_mul_abs_bound((v - src_min) as int, hi as int, 2 * SAMPLE_MAX as int,
            SAMPLE_MAX as int);
    }
    let p: u128 = (((v as i128) - (src_min as i128)) as u128) * (hi as u128);
    let q: u128 = p / (((src_max as i128) - (src_min as i128)) as u128);
    proof {
        let d = (v - src_min) as int;
        let rng = (src_max - src_min) as int;
        vstd::arithmetic::div_mod::lemma_div_pos_is_pos(d * hi, rng);
        vstd::arithmetic::mul::lemma_mul_inequality(d, rng, hi as int);
        vstd::arithmetic::div_mod::lemma_div_is_ordered(d * hi, rng * hi, rng);
        vstd::arithmetic::div_mod::lemma_div_multiples_vanish(hi as int, rng);
        assert(rng * hi == hi as int * rng) by (nonlinear_arith);
    }
    q as i64
}

/// The RGB output raster reprojection accumulates into.
#[derive(Debug)]
pub struct RgbRaster {
    pub red: ImageBuffer,
    pub green: ImageBuffer,
    pub blue: ImageBuffer,
}

/// The paint relation between one band before and after a quad is painted.
pub open spec fn painted_band(
    pre: &ImageBuffer,
    post: &ImageBuffer,
    q: Quad,
    wrap: bool,
    value: i64,
) -> bool {
    &&& post.wf()
    &&& post.width == pre.width
    &&& post.height == pre.height
    &&& forall|px: int, py: int|
        post.in_bounds(px, py) ==> #[trigger] post.sample_at(px, py) == (if spec_painted(q,
            pre.width as int, wrap, px, py) {
            value
        } else {
            pre.sample_at(px, py)
        })
}

impl RgbRaster {
    /// The three bands are well formed and share one set of dimensions
    /// within the painter's working range.
    pub open spec fn wf(&self) -> bool {
        &&& self.red.wf()
        &&& self.green.wf()
        &&& self.blue.wf()
        &&& self.green.width == self.red.width && self.green.height == self.red.height
        &&& self.blue.width == self.red.width && self.blue.height == self.red.height
        &&& 0 < self.red.width <= PAINT_LIMIT
        &&& 0 < self.red.height <= PAINT_LIMIT
    }

    /// Creates a zero-filled RGB raster of the requested dimensions.
    pub fn create(width: usize, height: usize) -> (r: Result<RgbRaster, Error>)
        requires
            0 < width <= PAINT_LIMIT,
            0 < height <= PAINT_LIMIT,
            width * height <= usize::MAX,
        ensures
            r is Ok,
            r matches Ok(m) ==> {
                &&& m.wf()
                &&& m.red.width == width
                &&& m.red.height == height
                &&& m.red@ == Seq::new((width * height) as nat, |i: int| 0i64)
                &&& m.green@ == m.red@
                &&& m.blue@ == m.red@
            },
    {
        let red = match ImageBuffer::new(width, height) {
            Ok(b) => b,
            Err(e) => { return Err(e) },
        };
        let green = match ImageBuffer::new(width, height) {
            Ok(b) => b,
            Err(e) => { return Err(e) },
        };
        let blue = match ImageBuffer::new(width, height) {
            Ok(b) => b,
            Err(e) => { return Err(e) },
        };
        Ok(RgbRaster { red, green, blue })
    }

    /// Paints a source pixel's footprint into one band (0 red, 1 green,
    /// 2 blue) with last-writer-wins semantics; with `wrap` the quad may
    /// cross the raster's horizontal seam. The other two bands keep every
    /// sample.
    pub fn paint_square(&mut self, q: &Quad, value: i64, wrap: bool, band: usize) -> (r: Result<
        (),
        Error,
    >)
        requires
            old(self).wf(),
            quad_ok(*q),
            in_sample_range(value),
            band < 3,
        ensures
            r is Ok,
            final(self).wf(),
            band == 0 ==> painted_band(&old(self).red, &final(self).red, *q, wrap, value)
                && final(self).green == old(self).green && final(self).blue == old(self).blue,
            band == 1 ==> painted_band(&old(self).green, &final(self).green, *q, wrap, value)
                && final(self).red == old(self).red && final(self).blue == old(self).blue,
            band == 2 ==> painted_band(&old(self).blue, &final(self).blue, *q, wrap, value)
                && final(self).red == old(self).red && final(self).green == old(self).green,
    {
        if band == 0 {
            paint_band(&mut self.red, q, value, wrap);
        } else if band == 1 {
            paint_band(&mut self.green, q, value, wrap);
        } else {
            paint_band(&mut self.blue, q, value, wrap);
        }
        Ok(())
    }

    /// The smallest sample across all three bands.
    pub open spec fn joint_min(&self) -> i64 {
        vstd::math::min(
            seq_min(self.red@) as int,
            vstd::math::min(seq_min(self.green@) as int, seq_min(self.blue@) as int),
        ) as i64
    }

    /// The largest sample across all three bands.
    pub open spec fn joint_max(&self) -> i64 {
        vstd::math::max(
            seq_max(self.red@) as int,
            vstd::math::max(seq_max(self.green@) as int, seq_max(self.blue@) as int),
        ) as i64
    }

    /// Normalizes the three bands jointly onto the 16-bit output scale: one
    /// common range — the samples' joint minimum to joint maximum — maps
    /// every band, so the channels keep their relative balance.
    pub fn normalize_to_16bit(&mut self) -> (r: Result<(), Error>)
        requires
            old(self).wf(),
        ensures
            r is Ok,
            final(self).wf(),
            final(self).red.width == old(self).red.width,
            final(self).red.height == old(self).red.height,
            final(self).red@ == spec_rescale(old(self).red@, old(self).joint_min(),
                old(self).joint_max(), 65535),
            final(self).green@ == spec_rescale(old(self).green@, old(self).joint_min(),
                old(self).joint_max(), 65535),
            final(self).blue@ == spec_rescale(old(self).blue@, old(self).joint_min(),
                old(self).joint_max(), 65535),
    {
        let n = self.red.buffer.len();
        if n == 0 {
            proof {
                assert(self.red@ =~= spec_rescale(self.red@, self.joint_min(), self.joint_max(),
                    65535));
                assert(self.green@ =~= spec_rescale(self.green@, self.joint_min(),
                    self.joint_max(), 65535));
                assert(self.blue@ =~= spec_rescale(self.blue@, self.joint_min(), self.joint_max(),
                    65535));
            }
            return Ok(());
        }
        let mmr = self.red.get_min_max(None).unwrap();
        let mmg = self.green.get_min_max(None).unwrap();
        let mmb = self.blue.get_min_max(None).unwrap();
        let gmin = if mmr.min < mmg.min && mmr.min < mmb.min {
            mmr.min
        } else if mmg.min < mmb.min {
            mmg.min
        } else {
            mmb.min
        };
        let gmax = if mmr.max > mmg.max && mmr.max > mmb.max {
            mmr.max
        } else if mmg.max > mmb.max {
            mmg.max
        } else {
            mmb.max
        };
        proof {
            assert(gmin == self.joint_min() && gmax == self.joint_max());
            crate::buffer::lemma_seq_min_max(self.red@);
            crate::buffer::lemma_seq_min_max(self.green@);
            crate::buffer::lemma_seq_min_max(self.blue@);
        }
        let red = rescale_band(&self.red, gmin, gmax);
        let green = rescale_band(&self.green, gmin, gmax);
        let blue = rescale_band(&self.blue, gmin, gmax);
        self.red = red;
        self.green = green;
        self.blue = blue;
        Ok(())
    }

    /// Normalizes each band independently onto the 16-bit output scale:
    /// every channel is stretched over its own minimum and maximum.
    pub fn normalize_to_16bit_seperate_channels(&mut self) -> (r: Result<(), Error>)
        requires
            old(self).wf(),
        ensures
            r is Ok,
            final(self).wf(),
            final(self).red.width == old(self).red.width,
            final(self).red.height == old(self).red.height,
            final(self).red@ == crate::buffer::spec_normalize(old(self).red@, 0, 65535),
            final(self).green@ == crate::buffer::spec_normalize(old(self).green@, 0, 65535),
            final(self).blue@ == crate::buffer::spec_normalize(old(self).blue@, 0, 65535),
    {
        let red = match self.red.normalize(0, 65535) {
            Ok(b) => b,
            Err(e) => { return Err(e) },
        };
        let green = match self.green.normalize(0, 65535) {
            Ok(b) => b,
            Err(e) => { return Err(e) },
        };
        let blue = match self.blue.normalize(0, 65535) {
            Ok(b) => b,
            Err(e) => { return Err(e) },
        };
        self.red = red;
        self.green = green;
        self.blue = blue;
        Ok(())
    }
}

/// The output band a strip index paints: channel order is reversed between
/// source indexing (blue, green, red) and output indexing (red, green,
/// blue).
pub fn band_for_strip_index(s: usize) -> (r: usize)
    requires
        s < 3,
    ensures
        r == 2 - s,
{
    2 - s
}

/// Rescales one band from the joint range onto the 16-bit scale.
fn rescale_band(b: &ImageBuffer, src_min: i64, src_max: i64) -> (r: ImageBuffer)
    requires
        b.wf(),
        in_sample_range(src_min),
        in_sample_range(src_max),
        forall|i: int| 0 <= i < b@.len() ==> src_min <= #[trigger] b@[i] <= src_max,
    ensures
        r.wf(),
        r.width == b.width,
        r.height == b.height,
        r@ == spec_rescale(b@, src_min, src_max, 65535),
{
    let n = b.buffer.len();
    let mut v: Vec<i64> = Vec::new();
    let mut i: usize = 0;
    while i < n
        invariant
            i <= n,
            b.wf(),
            n == b@.len(),
            in_sample_range(src_min),
            in_sample_range(src_max),
            forall|j: int| 0 <= j < n ==> src_min <= #[trigger] b@[j] <= src_max,
            v@.len() == i,
            forall|j: int| 0 <= j < i ==> v@[j] == rescale_sample(b@[j], src_min, src_max, 65535),
            forall|j: int| 0 <= j < i ==> 0 <= #[trigger] v@[j] <= 65535,
        decreases n - i,
    {
        v.push(rescale_exec(b.buffer[i], src_min, src_max, 65535));
        i = i + 1;
    }
    proof {
        assert(v@ =~= spec_rescale(b@, src_min, src_max, 65535));
    }
    ImageBuffer { buffer: v, width: b.width, height: b.height, empty: false }
}

/// Paints one band, wrapping across the horizontal seam when asked to.
fn paint_band(band: &mut ImageBuffer, q: &Quad, value: i64, wrap: bool)
    requires
        old(band).wf(),
        0 < old(band).width <= PAINT_LIMIT,
        old(band).height <= PAINT_LIMIT,
        quad_ok(*q),
        in_sample_range(value),
    ensures
        painted_band(old(band), final(band), *q, wrap, value),
{
    if !wrap {
        paint_quad_clipped(band, q, value);
        return ;
    }
    let w = band.width as i64;
    // Shift the quad by whole raster widths so its left edge lies on the
    // raster, then paint it and its copy one width to the left.
    let minx4 = if q.tl.x < q.bl.x {
        q.tl.x
    } else {
        q.bl.x
    };
    let minx4 = if minx4 < q.br.x {
        minx4
    } else {
        q.br.x
    };
    let minx4 = if minx4 < q.tr.x {
        minx4
    } else {
        q.tr.x
    };
    let mut rem: i64 = minx4;
    while rem < 0
        invariant
            0 < w,
            rem as int % w as int == minx4 as int % w as int,
            rem >= minx4,
            minx4 >= -PAINT_LIMIT,
            w <= PAINT_LIMIT,
            rem <= PAINT_LIMIT,
        decreases (if rem < 0 {
            -(rem as int)
        } else {
            0int
        }),
    {
        proof {
            vstd::arithmetic::div_mod::lemma_mod_add_multiples_vanish(rem as int, w as int);
        }
        rem = rem + w;
    }
    while rem >= w
        invariant
            0 <= rem,
            0 < w,
            rem as int % w as int == minx4 as int % w as int,
        decreases rem,
    {
        proof {
            vstd::arithmetic::div_mod::lemma_mod_sub_multiples_vanish(rem as int, w as int);
        }
        rem = rem - w;
    }
    proof {
        vstd::arithmetic::div_mod::lemma_small_mod(rem as nat, w as nat);
    }
    let s: i64 = minx4 - rem;
    let ghost gs = seam_shift(*q, w as int);
    proof {
        assert(gs == s);
    }
    let qs = Quad {
        tl: Corner { x: q.tl.x - s, y: q.tl.y },
        bl: Corner { x: q.bl.x - s, y: q.bl.y },
        br: Corner { x: q.br.x - s, y: q.br.y },
        tr: Corner { x: q.tr.x - s, y: q.tr.y },
    };
    let qs2 = Quad {
        tl: Corner { x: qs.tl.x - w, y: q.tl.y },
        bl: Corner { x: qs.bl.x - w, y: q.bl.y },
        br: Corner { x: qs.br.x - w, y: q.br.y },
        tr: Corner { x: qs.tr.x - w, y: q.tr.y },
    };
    let ghost mid = *band;
    paint_quad_clipped(band, &qs2, value);
    paint_quad_clipped(band, &qs, value);
    proof {
        assert(qs == shift_quad(*q, gs));
        assert(qs2 == shift_quad(shift_quad(*q, gs), w as int));
        assert forall|px: int, py: int|
            final(band).in_bounds(px, py) implies #[trigger] final(band).sample_at(px, py) == (
        if spec_painted(*q, old(band).width as int, wrap, px, py) {
            value
        } else {
            old(band).sample_at(px, py)
        }) by {
            lemma_shift_paints(shift_quad(*q, gs), w as int, px, py);
            if paints(shift_quad(*q, gs), px, py) {
            } else if paints(shift_quad(*q, gs), px + w, py) {
                assert(paints(qs2, px, py));
            }
        }
    }
}

} // verus!
