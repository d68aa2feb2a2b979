//! Fixed-shape cubic curve types.
//!
//! One single-axis cubic polynomial record with named control fields, and
//! the two-axis composite built from a pair of them. Both are typed
//! constructors over the generic engine: their queries carry the same
//! exact Bernstein contracts as the runtime-order evaluator, which makes
//! the agreement of the two paths a stated equality rather than a test.

use vstd::prelude::*;

use crate::BevError;
use crate::coeff::FactorCache;
use crate::nbez::bez_fits;
use crate::nbez::bez_val;
use crate::nbez::slope_fits;
use crate::nbez::slope_val;
use crate::nbez::comp_x;
use crate::nbez::comp_y;
use crate::nbez::eval_axis;
use crate::nbez::slope_axis;
use crate::nbez::vals;
use crate::nbez::rats_wf;
use crate::point::Point;
use crate::point::Vector;
use crate::rat::Q;
use crate::rat::Rat;
use crate::rat::q_in_unit;

verus! {

/// A single-axis cubic Bézier polynomial: exactly its four control
/// values, named; the Bernstein weights `1, 3, 3, 1` and the derivative
/// weights `1, 2, 1` are fixed by the shape.
#[derive(Debug, Clone, Copy, PartialEq, Eq, Structural)]
pub struct BezCubePoly {
    pub start: Rat,
    pub ctrl0: Rat,
    pub ctrl1: Rat,
    pub end: Rat,
}

impl BezCubePoly {
    pub open spec fn wf(self) -> bool {
        self.start.wf() && self.ctrl0.wf() && self.ctrl1.wf() && self.end.wf()
    }

    /// The control values as the component sequence the generic
    /// evaluator's specification speaks of.
    pub open spec fn comps(self) -> Seq<Q> {
        seq![self.start@, self.ctrl0@, self.ctrl1@, self.end@]
    }

    pub fn new(start: Rat, ctrl0: Rat, ctrl1: Rat, end: Rat) -> (r: BezCubePoly)
        ensures
            r == (BezCubePoly { start, ctrl0, ctrl1, end }),
    {
        BezCubePoly { start, ctrl0, ctrl1, end }
    }

    fn comp_vec(&self) -> (r: Vec<Rat>)
        requires
            self.wf(),
        ensures
            vals(r@) == self.comps(),
            rats_wf(r@),
            r@.len() == 4,
    {
        let mut cs: Vec<Rat> = Vec::new();
        cs.push(self.start);
        cs.push(self.ctrl0);
        cs.push(self.ctrl1);
        cs.push(self.end);
        proof {
            assert(vals(cs@) =~= self.comps());
        }
        cs
    }

    /// The cubic Bernstein sum at `t`, without a domain check.
    pub fn interp_unbounded(&self, t: Rat) -> (r: Option<Rat>)
        requires
            self.wf(),
            t.wf(),
        ensures
            r is Some <==> bez_fits(self.comps(), t@),
            r matches Some(v) ==> v.wf() && v@ == bez_val(self.comps(), t@),
    {
        let cs = self.comp_vec();
        let mut cache = FactorCache::new();
        cache.update_factors(3);
        eval_axis(&cs, t, &cache, 3)
    }

    /// The cubic Bernstein sum at `t`; `DomainError` exactly when `t` is
    /// outside `[0, 1]`, `ValueOverflow` exactly when the exact fold
    /// leaves the machine word.
    pub fn interp(&self, t: Rat) -> (r: Result<Rat, BevError>)
        requires
            self.wf(),
            t.wf(),
        ensures
            match r {
                Ok(v) => q_in_unit(t@) && bez_fits(self.comps(), t@) && v.wf() && v@ == bez_val(
                    self.comps(),
                    t@,
                ),
                Err(e) => {
                    ||| e == BevError::DomainError && !q_in_unit(t@)
                    ||| e == BevError::ValueOverflow && q_in_unit(t@) && !bez_fits(
                        self.comps(),
                        t@,
                    )
                },
            },
    {
        if !t.in_unit() {
            return Err(BevError::DomainError);
        }
        match self.interp_unbounded(t) {
            Some(v) => Ok(v),
            None => Err(BevError::ValueOverflow),
        }
    }

    /// The derivative of the cubic at `t`, without a domain check.
    pub fn slope_unbounded(&self, t: Rat) -> (r: Option<Rat>)
        requires
            self.wf(),
            t.wf(),
        ensures
            r is Some <==> slope_fits(self.comps(), t@),
            r matches Some(v) ==> v.wf() && v@ == slope_val(self.comps(), t@),
    {
        let cs = self.comp_vec();
        let mut cache = FactorCache::new();
        cache.update_factors(3);
        slope_axis(&cs, t, &cache, 3)
    }

    /// The derivative of the cubic at `t`; errors as `interp`.
    pub fn slope(&self, t: Rat) -> (r: Result<Rat, BevError>)
        requires
            self.wf(),
            t.wf(),
        ensures
            match r {
                Ok(v) => q_in_unit(t@) && slope_fits(self.comps(), t@) && v.wf() && v@
                    == slope_val(self.comps(), t@),
                Err(e) => {
                    ||| e == BevError::DomainError && !q_in_unit(t@)
                    ||| e == BevError::ValueOverflow && q_in_unit(t@) && !slope_fits(
                        self.comps(),
                        t@,
                    )
                },
            },
    {
        if !t.in_unit() {
            return Err(BevError::DomainError);
        }
        match self.slope_unbounded(t) {
            Some(v) => Ok(v),
            None => Err(BevError::ValueOverflow),
        }
    }
}

/// A two-axis cubic curve: one cubic polynomial per axis, evaluated
/// jointly at one `t`.
#[derive(Debug, Clone, Copy, PartialEq, Eq, Structural)]
pub struct BezCube {
    pub x: BezCubePoly,
    pub y: BezCubePoly,
}

/// Both axes' interpolation folds fit the machine word.
pub open spec fn cube_interp_fits(c: BezCube, t: Q) -> bool {
    bez_fits(c.x.comps(), t) && bez_fits(c.y.comps(), t)
}

/// Both axes' derivative folds fit the machine word.
pub open spec fn cube_slope_fits(c: BezCube, t: Q) -> bool {
    slope_fits(c.x.comps(), t) && slope_fits(c.y.comps(), t)
}

impl BezCube {
    pub open spec fn wf(self) -> bool {
        self.x.wf() && self.y.wf()
    }

    /// The four control points the pair of axis polynomials stands for.
    pub open spec fn points_spec(self) -> Seq<Point> {
        seq![
            Point { x: self.x.start, y: self.y.start },
            Point { x: self.x.ctrl0, y: self.y.ctrl0 },
            Point { x: self.x.ctrl1, y: self.y.ctrl1 },
            Point { x: self.x.end, y: self.y.end },
        ]
    }

    pub fn new(x: BezCubePoly, y: BezCubePoly) -> (r: BezCube)
        ensures
            r == (BezCube { x, y }),
    {
        BezCube { x, y }
    }

    /// The flat view over the control points, for bulk access.
    pub fn points(&self) -> (r: Vec<Point>)
        ensures
            r@ == self.points_spec(),
    {
        let mut v: Vec<Point> = Vec::new();
        v.push(Point::new(self.x.start, self.y.start));
        v.push(Point::new(self.x.ctrl0, self.y.ctrl0));
        v.push(Point::new(self.x.ctrl1, self.y.ctrl1));
        v.push(Point::new(self.x.end, self.y.end));
        proof {
            assert(v@ =~= self.points_spec());
        }
        v
    }

    /// The curve position at `t`, checking the domain once for both axes.
    pub fn interp(&self, t: Rat) -> (r: Result<Point, BevError>)
        requires
            self.wf(),
            t.wf(),
        ensures
            match r {
                Ok(p) => q_in_unit(t@) && bez_fits(self.x.comps(), t@) && bez_fits(
                    self.y.comps(),
                    t@,
                ) && p.wf() && p.x@ == bez_val(self.x.comps(), t@) && p.y@ == bez_val(
                    self.y.comps(),
                    t@,
                ),
                Err(e) => {
                    ||| e == BevError::DomainError && !q_in_unit(t@)
                    ||| e == BevError::ValueOverflow && q_in_unit(t@) && !cube_interp_fits(
                        *self,
                        t@,
                    )
                },
            },
    {
        if !t.in_unit() {
            return Err(BevError::DomainError);
        }
        match (self.x.interp_unbounded(t), self.y.interp_unbounded(t)) {
            (Some(x), Some(y)) => Ok(Point::new(x, y)),
            _ => Err(BevError::ValueOverflow),
        }
    }

    /// The derivative at `t`, as a displacement; errors as `interp`.
    pub fn derivative(&self, t: Rat) -> (r: Result<Vector, BevError>)
        requires
            self.wf(),
            t.wf(),
        ensures
            match r {
                Ok(v) => q_in_unit(t@) && slope_fits(self.x.comps(), t@) && slope_fits(
                    self.y.comps(),
                    t@,
                ) && v.wf() && v.x@ == slope_val(self.x.comps(), t@) && v.y@ == slope_val(
                    self.y.comps(),
                    t@,
                ),
                Err(e) => {
                    ||| e == BevError::DomainError && !q_in_unit(t@)
                    ||| e == BevError::ValueOverflow && q_in_unit(t@) && !cube_slope_fits(
                        *self,
                        t@,
                    )
                },
            },
    {
        if !t.in_unit() {
            return Err(BevError::DomainError);
        }
        match (self.x.slope_unbounded(t), self.y.slope_unbounded(t)) {
            (Some(x), Some(y)) => Ok(Vector::new(x, y)),
            _ => Err(BevError::ValueOverflow),
        }
    }
}

/// Fixed-shape and generic evaluators agree: on the control points a
/// composite cubic stands for, the generic curve's interpolation and
/// derivative specifications are the very values the fixed shape's
/// contracts state, axis by axis.
pub proof fn lemma_fixed_matches_generic(c: BezCube, t: Q)
    ensures
        bez_val(comp_x(c.points_spec()), t) == bez_val(c.x.comps(), t),
        bez_val(comp_y(c.points_spec()), t) == bez_val(c.y.comps(), t),
        slope_val(comp_x(c.points_spec()), t) == slope_val(c.x.comps(), t),
        slope_val(comp_y(c.points_spec()), t) == slope_val(c.y.comps(), t),
        bez_fits(comp_x(c.points_spec()), t) == bez_fits(c.x.comps(), t),
        bez_fits(comp_y(c.points_spec()), t) == bez_fits(c.y.comps(), t),
        slope_fits(comp_x(c.points_spec()), t) == slope_fits(c.x.comps(), t),
        slope_fits(comp_y(c.points_spec()), t) == slope_fits(c.y.comps(), t),
{
    assert(comp_x(c.points_spec()) =~= c.x.comps());
    assert(comp_y(c.points_spec()) =~= c.y.comps());
}

} // verus!
