//! The curve of BLS12-381 over its base field, and its group of points.

use vstd::prelude::*;

use crate::scalar::scalar_modulus;

verus! {

/// The order of the base field of BLS12-381.
pub open spec fn base_modulus() -> nat {
    0x1a0111ea397fe69a4b1ba7b6434bacd764774b84f38512bf6730d2a0f6b0f6241eabfffeb153ffffb9feffffffffaaabnat
}

/// A point of the curve.
pub enum CurvePoint {
    /// The point at infinity, which is the identity of the group.
    Infinity,
    /// The point with these coordinates.
    Affine { x: nat, y: nat },
}

/// Whether `x` and `y` are coordinates of a point of the curve
/// `y^2 = x^3 + 4`.
pub open spec fn on_curve(x: nat, y: nat) -> bool {
    &&& x < base_modulus()
    &&& y < base_modulus()
    &&& (y * y) % base_modulus() == (x * x * x + 4) % base_modulus()
}

/// Whether `quotient` is the element of the base field that gives `dividend`
/// when it is multiplied by `divisor`.
pub open spec fn is_quotient(quotient: int, dividend: int, divisor: int) -> bool {
    &&& 0 <= quotient < base_modulus()
    &&& (quotient * divisor) % base_modulus() as int == dividend % base_modulus() as int
}

/// Division in the base field.
pub open spec fn field_quotient(dividend: int, divisor: int) -> int {
    choose|quotient: int| is_quotient(quotient, dividend, divisor)
}

/// The sum of two points, by chord and tangent.
pub open spec fn point_sum(p: CurvePoint, q: CurvePoint) -> CurvePoint {
    let m = base_modulus() as int;
    match (p, q) {
        (CurvePoint::Infinity, _) => q,
        (_, CurvePoint::Infinity) => p,
        (CurvePoint::Affine { x: x1, y: y1 }, CurvePoint::Affine { x: x2, y: y2 }) => if x1 == x2
            && (y1 + y2) as int % m == 0 {
            CurvePoint::Infinity
        } else {
            let slope = if x1 == x2 {
                field_quotient((3 * x1 * x1) as int, (2 * y1) as int)
            } else {
                field_quotient(y2 - y1, x2 - x1)
            };
            let x = (slope * slope - x1 - x2) % m;
            let y = (slope * (x1 - x) - y1) % m;
            CurvePoint::Affine { x: x as nat, y: y as nat }
        },
    }
}

/// The sum of `count` times the point `p`.
pub open spec fn point_multiple(count: nat, p: CurvePoint) -> CurvePoint
    decreases count,
{
    if count == 0 {
        CurvePoint::Infinity
    } else {
        point_sum(point_multiple((count - 1) as nat, p), p)
    }
}

/// Whether `p` lies in the subgroup of prime order, that of the scalars.
pub open spec fn in_subgroup(p: CurvePoint) -> bool {
    point_multiple(scalar_modulus(), p) is Infinity
}

} // verus!
