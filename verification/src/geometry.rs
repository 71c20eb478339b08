//! Plane geometry for the simulation: fixed-point 2-D vectors and the
//! enclosure test that decides when one circular entity absorbs another.

use vstd::prelude::*;

verus! {

/// A 2-D vector with fixed-point coordinates (thousandths of a world unit).
#[derive(Clone, Copy, Debug, PartialEq, Eq, Structural)]
pub struct Vec2 {
    pub x: i64,
    pub y: i64,
}

impl Vec2 {
    pub fn new(x: i64, y: i64) -> (r: Vec2)
        ensures
            r.x == x,
            r.y == y,
    {
        Vec2 { x, y }
    }
}

/// The square of an integer.
pub open spec fn sq(v: int) -> int {
    v * v
}

/// Squared Euclidean distance between two points.
pub open spec fn dist_sq(a: Vec2, b: Vec2) -> int {
    sq(a.x - b.x) + sq(a.y - b.y)
}

/// The enclosure predicate of the interaction stage: the disc at `a_pos` with
/// radius `a_size` is strictly larger and the disc at `b_pos` with radius
/// `b_size` lies entirely inside it, with no perimeter overlap. Over
/// non-negative radii this says exactly `|a_pos - b_pos| + b_size < a_size`,
/// stated with squared distances so that it stays in the integers.
pub open spec fn encloses(a_pos: Vec2, a_size: int, b_pos: Vec2, b_size: int) -> bool {
    &&& a_size > b_size
    &&& dist_sq(a_pos, b_pos) < sq(a_size - b_size)
}

/// Runs the enclosure test exactly, for any two points of the plane: the
/// squares are taken in 128-bit arithmetic, and a sum of squares that exceeds
/// the 128-bit range is already far beyond any radius difference.
pub fn encloses_check(a_pos: Vec2, a_size: i64, b_pos: Vec2, b_size: i64) -> (r: bool)
    requires
        a_size >= 0,
        b_size >= 0,
    ensures
        r == encloses(a_pos, a_size as int, b_pos, b_size as int),
{
    if a_size <= b_size {
        return false;
    }
    let sqx: u128 = axis_gap_squared(a_pos.x, b_pos.x);
    let sqy: u128 = axis_gap_squared(a_pos.y, b_pos.y);
    let diff: i64 = a_size - b_size;
    proof {
        assert((diff as u128) * (diff as u128) == sq(a_size - b_size)
            && (diff as u128) * (diff as u128) <= 0x7fff_ffff_ffff_ffff * 0x7fff_ffff_ffff_ffff) by (nonlinear_arith)
            requires
                diff == a_size - b_size,
                0 < diff <= i64::MAX,
        ;
    }
    let sqd: u128 = (diff as u128) * (diff as u128);
    if sqx > u128::MAX - sqy {
        proof {
            assert(sq(a_size - b_size) < sqx + sqy);
        }
        return false;
    }
    sqx + sqy < sqd
}

/// The squared gap between two coordinates of one axis, exact in `u128`.
fn axis_gap_squared(a: i64, b: i64) -> (r: u128)
    ensures
        r == sq(a - b),
{
    let wide: i128 = (a as i128) - (b as i128);
    let gap: u128 = if wide < 0 {
        (-wide) as u128
    } else {
        wide as u128
    };
    proof {
        assert(gap * gap == sq(a - b)) by (nonlinear_arith)
            requires
                gap == if wide < 0 { -wide as int } else { wide as int },
                wide == a - b,
                -0xffff_ffff_ffff_ffff <= wide <= 0xffff_ffff_ffff_ffff,
        ;
        assert(gap * gap <= 0xffff_ffff_ffff_ffff * 0xffff_ffff_ffff_ffff) by (nonlinear_arith)
            requires
                0 <= gap <= 0xffff_ffff_ffff_ffff,
        ;
    }
    gap * gap
}

} // verus!
