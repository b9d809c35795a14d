//! A closed disk: a center and a squared radius, the canonical stored form.
//!
//! The circle is derived either from two points (diametral) or from three
//! (circumscribed).  Membership is the inclusive squared-distance test, so
//! no square root is ever taken on that path.

use vstd::prelude::*;

use crate::binary64::HALF_BITS;
use crate::binary64::QUARTER_BITS;
use crate::binary64::TWO_BITS;
use crate::binary64::ZERO_BITS;
use crate::binary64::diff_bits;
use crate::binary64::is_nan_bits;
use crate::binary64::le_bits_spec;
use crate::binary64::prod_bits;
use crate::binary64::quot_bits;
use crate::binary64::sum_bits;
use crate::binary64::add_bits;
use crate::binary64::div_bits;
use crate::binary64::le_bits;
use crate::binary64::mul_bits;
use crate::binary64::sub_bits;
use crate::points::Point;
use crate::points::point_minus_point;
use crate::points::point_plus_vector;
use crate::points::sq_mag_spec;
use crate::points::vector_scaled;

verus! {

/// A closed disk, stored as its center and squared radius (a binary64 bit
/// pattern).
#[derive(Clone, Copy, PartialEq, Eq, Structural, Debug)]
pub struct ClosedCircle {
    pub center: Point,
    pub sq_radius: u64,
}

/// The diametral circle of two points: center at their midpoint, squared
/// radius one quarter of their squared distance, all in rounded binary64
/// arithmetic.
pub open spec fn two_point_circle(p1: Point, p2: Point) -> ClosedCircle {
    let d = point_minus_point(p2, p1);
    ClosedCircle {
        center: point_plus_vector(p1, vector_scaled(d, HALF_BITS)),
        sq_radius: prod_bits(QUARTER_BITS, sq_mag_spec(d)),
    }
}

/// The circumscribed circle of three points, by the standard closed form:
/// a determinant denominator from the coordinates, then the center, then the
/// squared distance from the first point, all in rounded binary64
/// arithmetic.  With collinear points the denominator encodes zero and the
/// result is degenerate.
pub open spec fn three_point_circle(p1: Point, p2: Point, p3: Point) -> ClosedCircle {
    let origin = (Point { x: ZERO_BITS, y: ZERO_BITS });
    let m1 = sq_mag_spec(point_minus_point(p1, origin));
    let m2 = sq_mag_spec(point_minus_point(p2, origin));
    let m3 = sq_mag_spec(point_minus_point(p3, origin));
    let den = prod_bits(
        TWO_BITS,
        diff_bits(
            sum_bits(
                diff_bits(
                    prod_bits(p1.x, diff_bits(p2.y, p3.y)),
                    prod_bits(p1.y, diff_bits(p2.x, p3.x)),
                ),
                prod_bits(p2.x, p3.y),
            ),
            prod_bits(p2.y, p3.x),
        ),
    );
    let num_x = sum_bits(
        sum_bits(prod_bits(m1, diff_bits(p2.y, p3.y)), prod_bits(m2, diff_bits(p3.y, p1.y))),
        prod_bits(m3, diff_bits(p1.y, p2.y)),
    );
    let num_y = sum_bits(
        sum_bits(prod_bits(m1, diff_bits(p3.x, p2.x)), prod_bits(m2, diff_bits(p1.x, p3.x))),
        prod_bits(m3, diff_bits(p2.x, p1.x)),
    );
    let center = (Point { x: quot_bits(num_x, den), y: quot_bits(num_y, den) });
    ClosedCircle { center, sq_radius: sq_mag_spec(point_minus_point(p1, center)) }
}

/// The inclusive disk test: the squared distance from the center is at most
/// the stored squared radius under the IEEE order (hence false whenever
/// either side is not-a-number).
pub open spec fn circle_covers(c: ClosedCircle, p: Point) -> bool {
    le_bits_spec(sq_mag_spec(point_minus_point(p, c.center)), c.sq_radius)
}

impl ClosedCircle {
    /// The diametral circle of two points.
    pub fn from_two_points(p1: Point, p2: Point) -> (r: Self)
        ensures
            r == two_point_circle(p1, p2),
    {
        let d = p2.sub(p1);
        ClosedCircle {
            center: p1.add(d.mul(HALF_BITS)),
            sq_radius: mul_bits(QUARTER_BITS, d.sq_mag()),
        }
    }

    /// The circumscribed circle of three points.  Callers must have ruled
    /// out collinear inputs (for instance by checking that no two-point
    /// circle of a pair already covers the third); on collinear inputs the
    /// denominator of the closed form encodes zero and the result is
    /// degenerate.
    pub fn from_three_points(p1: Point, p2: Point, p3: Point) -> (r: Self)
        ensures
            r == three_point_circle(p1, p2, p3),
    {
        let origin = Point { x: ZERO_BITS, y: ZERO_BITS };
        let m1 = p1.sub(origin).sq_mag();
        let m2 = p2.sub(origin).sq_mag();
        let m3 = p3.sub(origin).sq_mag();
        let den = mul_bits(
            TWO_BITS,
            sub_bits(
                add_bits(
                    sub_bits(
                        mul_bits(p1.x, sub_bits(p2.y, p3.y)),
                        mul_bits(p1.y, sub_bits(p2.x, p3.x)),
                    ),
                    mul_bits(p2.x, p3.y),
                ),
                mul_bits(p2.y, p3.x),
            ),
        );
        let num_x = add_bits(
            add_bits(mul_bits(m1, sub_bits(p2.y, p3.y)), mul_bits(m2, sub_bits(p3.y, p1.y))),
            mul_bits(m3, sub_bits(p1.y, p2.y)),
        );
        let num_y = add_bits(
            add_bits(mul_bits(m1, sub_bits(p3.x, p2.x)), mul_bits(m2, sub_bits(p1.x, p3.x))),
            mul_bits(m3, sub_bits(p2.x, p1.x)),
        );
        let center = Point { x: div_bits(num_x, den), y: div_bits(num_y, den) };
        ClosedCircle { center, sq_radius: p1.sub(center).sq_mag() }
    }

    /// Whether the closed disk contains the point (boundary included).
    pub fn covers(&self, point: Point) -> (r: bool)
        ensures
            r == circle_covers(*self, point),
    {
        le_bits(point.sub(self.center).sq_mag(), self.sq_radius)
    }
}

/// Law: a point whose squared distance from the center is exactly the stored
/// squared radius — a point exactly at the stored radius — is covered,
/// whenever that shared value is not a not-a-number pattern.
pub proof fn lemma_boundary_inclusive(c: ClosedCircle, p: Point)
    requires
        sq_mag_spec(point_minus_point(p, c.center)) == c.sq_radius,
        !is_nan_bits(c.sq_radius),
    ensures
        circle_covers(c, p),
{
}

} // verus!
