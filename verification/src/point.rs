//! Planar points and vectors over the exact scalar.
//!
//! `Point` is an affine position, `Vector` a displacement: the two are
//! structurally alike but nominally distinct, and the operation set keeps
//! the affine/linear distinction (point plus vector, point minus point,
//! vector scaling; adding two points is not offered).

use vstd::prelude::*;

use crate::rat::Q;
use crate::rat::Rat;
use crate::rat::q_add;
use crate::rat::q_sub;
use crate::rat::q_mul;
use crate::rat::q_div;
use crate::rat::q_bounded;
use crate::rat::lemma_mul_abs_bound;

verus! {

/// The squared length of `(x, y)` as the evaluator computes it.
pub open spec fn len_sq(x: Q, y: Q) -> Q {
    q_add(q_mul(x, x), q_mul(y, y))
}

/// Every intermediate of the squared length fits the machine word.
pub open spec fn len_fits(x: Q, y: Q) -> bool {
    q_bounded(q_mul(x, x)) && q_bounded(q_mul(y, y)) && q_bounded(len_sq(x, y))
}

/// `l` is the computed length of `(x, y)`: it shares the denominator of
/// `x^2 + y^2` and its numerator is the integer square root of that
/// value's cross product, so `l^2 <= x^2 + y^2 < (l + 1/l.d)^2`.
pub open spec fn is_len_of(x: Q, y: Q, l: Q) -> bool {
    let s = len_sq(x, y);
    &&& l.d == s.d
    &&& l.n >= 0
    &&& l.n * l.n <= s.n * s.d
    &&& s.n * s.d < (l.n + 1) * (l.n + 1)
}

/// The floor of the square root: `r^2 <= v < (r + 1)^2`.
fn isqrt_u128(v: u128) -> (r: u128)
    ensures
        (r as int) * (r as int) <= v as int,
        (v as int) < (r as int + 1) * (r as int + 1),
{
    if v == 0 {
        return 0;
    }
    let mut lo: u128 = 0;
    let mut hi: u128 = 0x1_0000_0000_0000_0000;
    while lo + 1 < hi
        invariant
            lo < hi <= 0x1_0000_0000_0000_0000,
            (lo as int) * (lo as int) <= v as int,
            (v as int) < (hi as int) * (hi as int),
        decreases hi - lo,
    {
        let mid = lo + (hi - lo) / 2;
        proof {
            lemma_mul_abs_bound(
                mid as int,
                mid as int,
                0xffff_ffff_ffff_ffff,
                0xffff_ffff_ffff_ffff,
            );
        }
        let sq = mid * mid;
        if sq <= v {
            lo = mid;
        } else {
            hi = mid;
        }
    }
    lo
}

/// An affine position in the plane.
#[derive(Debug, Clone, Copy, PartialEq, Eq, Structural)]
pub struct Point {
    pub x: Rat,
    pub y: Rat,
}

/// A displacement in the plane.
#[derive(Debug, Clone, Copy, PartialEq, Eq, Structural)]
pub struct Vector {
    pub x: Rat,
    pub y: Rat,
}

impl Point {
    pub open spec fn wf(self) -> bool {
        self.x.wf() && self.y.wf()
    }

    pub fn new(x: Rat, y: Rat) -> (r: Point)
        ensures
            r == (Point { x, y }),
    {
        Point { x, y }
    }

    /// Point plus displacement is a point.
    pub fn add(self, rhs: Vector) -> (r: Option<Point>)
        requires
            self.wf(),
            rhs.wf(),
        ensures
            r is Some <==> q_bounded(q_add(self.x@, rhs.x@)) && q_bounded(q_add(self.y@, rhs.y@)),
            r matches Some(v) ==> v.wf() && v.x@ == q_add(self.x@, rhs.x@) && v.y@ == q_add(
                self.y@,
                rhs.y@,
            ),
    {
        match (self.x.add(rhs.x), self.y.add(rhs.y)) {
            (Some(x), Some(y)) => Some(Point { x, y }),
            _ => None,
        }
    }

    /// Point minus point is the displacement between them.
    pub fn sub(self, rhs: Point) -> (r: Option<Vector>)
        requires
            self.wf(),
            rhs.wf(),
        ensures
            r is Some <==> q_bounded(q_sub(self.x@, rhs.x@)) && q_bounded(q_sub(self.y@, rhs.y@)),
            r matches Some(v) ==> v.wf() && v.x@ == q_sub(self.x@, rhs.x@) && v.y@ == q_sub(
                self.y@,
                rhs.y@,
            ),
    {
        match (self.x.sub(rhs.x), self.y.sub(rhs.y)) {
            (Some(x), Some(y)) => Some(Vector { x, y }),
            _ => None,
        }
    }
}

impl Vector {
    pub open spec fn wf(self) -> bool {
        self.x.wf() && self.y.wf()
    }

    pub fn new(x: Rat, y: Rat) -> (r: Vector)
        ensures
            r == (Vector { x, y }),
    {
        Vector { x, y }
    }

    pub fn add(self, rhs: Vector) -> (r: Option<Vector>)
        requires
            self.wf(),
            rhs.wf(),
        ensures
            r is Some <==> q_bounded(q_add(self.x@, rhs.x@)) && q_bounded(q_add(self.y@, rhs.y@)),
            r matches Some(v) ==> v.wf() && v.x@ == q_add(self.x@, rhs.x@) && v.y@ == q_add(
                self.y@,
                rhs.y@,
            ),
    {
        match (self.x.add(rhs.x), self.y.add(rhs.y)) {
            (Some(x), Some(y)) => Some(Vector { x, y }),
            _ => None,
        }
    }

    pub fn sub(self, rhs: Vector) -> (r: Option<Vector>)
        requires
            self.wf(),
            rhs.wf(),
        ensures
            r is Some <==> q_bounded(q_sub(self.x@, rhs.x@)) && q_bounded(q_sub(self.y@, rhs.y@)),
            r matches Some(v) ==> v.wf() && v.x@ == q_sub(self.x@, rhs.x@) && v.y@ == q_sub(
                self.y@,
                rhs.y@,
            ),
    {
        match (self.x.sub(rhs.x), self.y.sub(rhs.y)) {
            (Some(x), Some(y)) => Some(Vector { x, y }),
            _ => None,
        }
    }

    /// Scaling by a scalar.
    pub fn mul(self, rhs: Rat) -> (r: Option<Vector>)
        requires
            self.wf(),
            rhs.wf(),
        ensures
            r is Some <==> q_bounded(q_mul(self.x@, rhs@)) && q_bounded(q_mul(self.y@, rhs@)),
            r matches Some(v) ==> v.wf() && v.x@ == q_mul(self.x@, rhs@) && v.y@ == q_mul(
                self.y@,
                rhs@,
            ),
    {
        match (self.x.mul(rhs), self.y.mul(rhs)) {
            (Some(x), Some(y)) => Some(Vector { x, y }),
            _ => None,
        }
    }

    /// The Euclidean length, rounded down to the nearest rational over
    /// the denominator of `x^2 + y^2` (the exact length is usually
    /// irrational). Zero exactly for the zero vector.
    pub fn len(self) -> (r: Option<Rat>)
        requires
            self.wf(),
        ensures
            r is Some <==> len_fits(self.x@, self.y@),
            r matches Some(l) ==> l.wf() && is_len_of(self.x@, self.y@, l@),
    {
        let xx = match self.x.mul(self.x) {
            Some(v) => v,
            None => {
                return None;
            },
        };
        let yy = match self.y.mul(self.y) {
            Some(v) => v,
            None => {
                return None;
            },
        };
        let s = match xx.add(yy) {
            Some(v) => v,
            None => {
                return None;
            },
        };
        proof {
            assert(xx@.n >= 0) by (nonlinear_arith)
                requires
                    xx@.n == self.x@.n * self.x@.n,
            ;
            assert(yy@.n >= 0) by (nonlinear_arith)
                requires
                    yy@.n == self.y@.n * self.y@.n,
            ;
            assert(s@.n >= 0) by (nonlinear_arith)
                requires
                    s@.n == xx@.n * yy@.d + yy@.n * xx@.d,
                    xx@.n >= 0,
                    yy@.n >= 0,
                    xx@.d >= 1,
                    yy@.d >= 1,
            ;
            lemma_mul_abs_bound(
                s.num as int,
                s.den as int,
                0x7fff_ffff_ffff_ffff,
                0x7fff_ffff_ffff_ffff,
            );
            assert(s.num as int * s.den as int >= 0) by (nonlinear_arith)
                requires
                    s.num >= 0,
                    s.den >= 1,
            ;
        }
        let p: u128 = ((s.num as i128) * (s.den as i128)) as u128;
        let rt = isqrt_u128(p);
        proof {
            assert(rt as int <= 0x7fff_ffff_ffff_ffff) by (nonlinear_arith)
                requires
                    (rt as int) * (rt as int) <= p as int,
                    p as int <= 0x7fff_ffff_ffff_ffff * 0x7fff_ffff_ffff_ffff,
            ;
        }
        Some(Rat::new(rt as i64, s.den))
    }

    /// The vector scaled to (approximately) unit length: each component
    /// divided by the computed length. Undefined for the zero vector,
    /// which is excluded.
    pub fn normalize(self) -> (r: Option<Vector>)
        requires
            self.wf(),
            self.x@.n != 0 || self.y@.n != 0,
        ensures
            r matches Some(v) ==> v.wf() && exists|l: Q|
                {
                    &&& #[trigger] is_len_of(self.x@, self.y@, l)
                    &&& v.x@ == q_div(self.x@, l)
                    &&& v.y@ == q_div(self.y@, l)
                },
            r is None ==> !len_fits(self.x@, self.y@) || exists|l: Q|
                {
                    &&& #[trigger] is_len_of(self.x@, self.y@, l)
                    &&& !(q_bounded(q_div(self.x@, l)) && q_bounded(q_div(self.y@, l)))
                },
    {
        let l = match self.len() {
            Some(v) => v,
            None => {
                return None;
            },
        };
        proof {
            let s = len_sq(self.x@, self.y@);
            assert(s.n >= 1) by (nonlinear_arith)
                requires
                    s.n == (self.x@.n * self.x@.n) * (self.y@.d * self.y@.d) + (self.y@.n
                        * self.y@.n) * (self.x@.d * self.x@.d),
                    self.x@.n != 0 || self.y@.n != 0,
                    self.x@.d >= 1,
                    self.y@.d >= 1,
            ;
            assert(l@.n >= 1) by (nonlinear_arith)
                requires
                    s.n >= 1,
                    s.d >= 1,
                    l@.n >= 0,
                    s.n * s.d < (l@.n + 1) * (l@.n + 1),
            ;
        }
        match self.div(l) {
            Some(v) => Some(v),
            None => None,
        }
    }

    /// Division by a non-zero scalar.
    pub fn div(self, rhs: Rat) -> (r: Option<Vector>)
        requires
            self.wf(),
            rhs.wf(),
            rhs@.n != 0,
        ensures
            r is Some <==> q_bounded(q_div(self.x@, rhs@)) && q_bounded(q_div(self.y@, rhs@)),
            r matches Some(v) ==> v.wf() && v.x@ == q_div(self.x@, rhs@) && v.y@ == q_div(
                self.y@,
                rhs@,
            ),
    {
        match (self.x.div(rhs), self.y.div(rhs)) {
            (Some(x), Some(y)) => Some(Vector { x, y }),
            _ => None,
        }
    }
}

} // verus!
