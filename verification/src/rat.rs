//! The exact scalar of the library: a rational number in a machine word.
//!
//! Spec-level arithmetic works on `Q`, a pair of unbounded integers; the
//! executable `Rat` mirrors it over `i64` fields, computing in `i128` so
//! that no single operation can overflow, and reporting `None` exactly
//! when a result no longer fits back into `i64`.

use vstd::prelude::*;

verus! {

/// A rational number at the specification level: numerator `n` over
/// denominator `d`. Well-formed values keep `d >= 1`; equality of values
/// is `q_eq`, not structural equality.
pub ghost struct Q {
    pub n: int,
    pub d: int,
}

pub open spec fn q_wf(q: Q) -> bool {
    q.d >= 1
}

/// The integer `n` as a rational.
pub open spec fn q_int(n: int) -> Q {
    Q { n, d: 1 }
}

pub open spec fn q_add(a: Q, b: Q) -> Q {
    Q { n: a.n * b.d + b.n * a.d, d: a.d * b.d }
}

pub open spec fn q_sub(a: Q, b: Q) -> Q {
    Q { n: a.n * b.d - b.n * a.d, d: a.d * b.d }
}

pub open spec fn q_mul(a: Q, b: Q) -> Q {
    Q { n: a.n * b.n, d: a.d * b.d }
}

/// Value equality of two rationals (cross multiplication).
pub open spec fn q_eq(a: Q, b: Q) -> bool {
    a.n * b.d == b.n * a.d
}

/// Division by a non-zero rational, keeping the denominator positive.
pub open spec fn q_div(a: Q, b: Q) -> Q {
    if b.n >= 0 {
        Q { n: a.n * b.d, d: a.d * b.n }
    } else {
        Q { n: -(a.n * b.d), d: -(a.d * b.n) }
    }
}

/// `1 - t`.
pub open spec fn q_one_minus(t: Q) -> Q {
    q_sub(q_int(1), t)
}

/// For a well-formed `t`: `0 <= t <= 1`.
pub open spec fn q_in_unit(t: Q) -> bool {
    0 <= t.n && t.n <= t.d
}

/// `a + (b - a) * s`, the linear interpolation from `a` towards `b`.
pub open spec fn q_lerp(a: Q, b: Q, s: Q) -> Q {
    q_add(a, q_mul(q_sub(b, a), s))
}

/// Whether the pair fits the executable representation: numerator in
/// `i64`, denominator positive and in `i64`.
pub open spec fn q_bounded(q: Q) -> bool {
    &&& -0x8000_0000_0000_0000 <= q.n <= 0x7fff_ffff_ffff_ffff
    &&& 1 <= q.d <= 0x7fff_ffff_ffff_ffff
}

/// `|a| <= bnd_a` and `|b| <= bnd_b` bound the product by `bnd_a * bnd_b`.
#[verifier::nonlinear]
pub proof fn lemma_mul_abs_bound(a: int, b: int, bnd_a: int, bnd_b: int)
    requires
        -bnd_a <= a <= bnd_a,
        -bnd_b <= b <= bnd_b,
        0 <= bnd_a,
        0 <= bnd_b,
    ensures
        -(bnd_a * bnd_b) <= a * b <= bnd_a * bnd_b,
{
}

/// The product of two positive integers is positive.
#[verifier::nonlinear]
pub proof fn lemma_mul_pos(a: int, b: int)
    requires
        a >= 1,
        b >= 1,
    ensures
        a * b >= 1,
{
}

/// Value equality of rationals is transitive over positive denominators.
#[verifier::nonlinear]
pub proof fn lemma_q_eq_trans(a: Q, b: Q, c: Q)
    requires
        q_wf(a),
        q_wf(b),
        q_wf(c),
        q_eq(a, b),
        q_eq(b, c),
    ensures
        q_eq(a, c),
{
}

/// The exact scalar: `num / den` with `den >= 1`.
#[derive(Debug, Clone, Copy, PartialEq, Eq, Structural)]
pub struct Rat {
    pub num: i64,
    pub den: i64,
}

impl View for Rat {
    type V = Q;

    open spec fn view(&self) -> Q {
        Q { n: self.num as int, d: self.den as int }
    }
}

impl Rat {
    /// Well-formedness: the denominator is positive.
    pub open spec fn wf(self) -> bool {
        self.den >= 1
    }

    /// The rational `num / den`.
    pub fn new(num: i64, den: i64) -> (r: Rat)
        requires
            den >= 1,
        ensures
            r.wf(),
            r@ == (Q { n: num as int, d: den as int }),
    {
        Rat { num, den }
    }

    /// The integer `n` as a rational.
    pub fn from_int(n: i64) -> (r: Rat)
        ensures
            r.wf(),
            r@ == q_int(n as int),
    {
        Rat { num: n, den: 1 }
    }

    /// Exact addition; `None` exactly when the (unreduced) result leaves `i64`.
    pub fn add(self, o: Rat) -> (r: Option<Rat>)
        requires
            self.wf(),
            o.wf(),
        ensures
            r is Some <==> q_bounded(q_add(self@, o@)),
            r matches Some(v) ==> v.wf() && v@ == q_add(self@, o@),
    {
        proof {
            lemma_mul_abs_bound(
                self.num as int,
                o.den as int,
                0x8000_0000_0000_0000,
                0x7fff_ffff_ffff_ffff,
            );
            lemma_mul_abs_bound(
                o.num as int,
                self.den as int,
                0x8000_0000_0000_0000,
                0x7fff_ffff_ffff_ffff,
            );
            lemma_mul_abs_bound(
                self.den as int,
                o.den as int,
                0x7fff_ffff_ffff_ffff,
                0x7fff_ffff_ffff_ffff,
            );
            lemma_mul_pos(self.den as int, o.den as int);
        }
        let n: i128 = (self.num as i128) * (o.den as i128) + (o.num as i128) * (self.den as i128);
        let d: i128 = (self.den as i128) * (o.den as i128);
        if -0x8000_0000_0000_0000i128 <= n && n <= 0x7fff_ffff_ffff_ffffi128
            && d <= 0x7fff_ffff_ffff_ffffi128 {
            Some(Rat { num: n as i64, den: d as i64 })
        } else {
            None
        }
    }

    /// Exact subtraction; `None` exactly when the result leaves `i64`.
    pub fn sub(self, o: Rat) -> (r: Option<Rat>)
        requires
            self.wf(),
            o.wf(),
        ensures
            r is Some <==> q_bounded(q_sub(self@, o@)),
            r matches Some(v) ==> v.wf() && v@ == q_sub(self@, o@),
    {
        proof {
            lemma_mul_abs_bound(
                self.num as int,
                o.den as int,
                0x8000_0000_0000_0000,
                0x7fff_ffff_ffff_ffff,
            );
            lemma_mul_abs_bound(
                o.num as int,
                self.den as int,
                0x8000_0000_0000_0000,
                0x7fff_ffff_ffff_ffff,
            );
            lemma_mul_abs_bound(
                self.den as int,
                o.den as int,
                0x7fff_ffff_ffff_ffff,
                0x7fff_ffff_ffff_ffff,
            );
            lemma_mul_pos(self.den as int, o.den as int);
        }
        let n: i128 = (self.num as i128) * (o.den as i128) - (o.num as i128) * (self.den as i128);
        let d: i128 = (self.den as i128) * (o.den as i128);
        if -0x8000_0000_0000_0000i128 <= n && n <= 0x7fff_ffff_ffff_ffffi128
            && d <= 0x7fff_ffff_ffff_ffffi128 {
            Some(Rat { num: n as i64, den: d as i64 })
        } else {
            None
        }
    }

    /// Exact multiplication; `None` exactly when the result leaves `i64`.
    pub fn mul(self, o: Rat) -> (r: Option<Rat>)
        requires
            self.wf(),
            o.wf(),
        ensures
            r is Some <==> q_bounded(q_mul(self@, o@)),
            r matches Some(v) ==> v.wf() && v@ == q_mul(self@, o@),
    {
        proof {
            lemma_mul_abs_bound(
                self.num as int,
                o.num as int,
                0x8000_0000_0000_0000,
                0x8000_0000_0000_0000,
            );
            lemma_mul_abs_bound(
                self.den as int,
                o.den as int,
                0x7fff_ffff_ffff_ffff,
                0x7fff_ffff_ffff_ffff,
            );
            lemma_mul_pos(self.den as int, o.den as int);
        }
        let n: i128 = (self.num as i128) * (o.num as i128);
        let d: i128 = (self.den as i128) * (o.den as i128);
        if -0x8000_0000_0000_0000i128 <= n && n <= 0x7fff_ffff_ffff_ffffi128
            && d <= 0x7fff_ffff_ffff_ffffi128 {
            Some(Rat { num: n as i64, den: d as i64 })
        } else {
            None
        }
    }

    /// Exact division by a non-zero rational; `None` exactly when the
    /// result leaves `i64`.
    pub fn div(self, o: Rat) -> (r: Option<Rat>)
        requires
            self.wf(),
            o.wf(),
            o@.n != 0,
        ensures
            r is Some <==> q_bounded(q_div(self@, o@)),
            r matches Some(v) ==> v.wf() && v@ == q_div(self@, o@),
    {
        proof {
            lemma_mul_abs_bound(
                self.num as int,
                o.den as int,
                0x8000_0000_0000_0000,
                0x7fff_ffff_ffff_ffff,
            );
            lemma_mul_abs_bound(
                self.den as int,
                o.num as int,
                0x7fff_ffff_ffff_ffff,
                0x8000_0000_0000_0000,
            );
            if o.num > 0 {
                lemma_mul_pos(self.den as int, o.num as int);
            } else {
                lemma_mul_pos(self.den as int, -(o.num as int));
                assert(self.den as int * o.num as int == -(self.den as int * -(o.num as int)))
                    by (nonlinear_arith);
            }
        }
        let mut n: i128 = (self.num as i128) * (o.den as i128);
        let mut d: i128 = (self.den as i128) * (o.num as i128);
        if d < 0 {
            n = -n;
            d = -d;
        }
        if -0x8000_0000_0000_0000i128 <= n && n <= 0x7fff_ffff_ffff_ffffi128
            && d <= 0x7fff_ffff_ffff_ffffi128 {
            Some(Rat { num: n as i64, den: d as i64 })
        } else {
            None
        }
    }

    /// Value equality (the two pairs may differ and still name one value).
    pub fn eq_rat(self, o: Rat) -> (r: bool)
        requires
            self.wf(),
            o.wf(),
        ensures
            r == q_eq(self@, o@),
    {
        proof {
            lemma_mul_abs_bound(
                self.num as int,
                o.den as int,
                0x8000_0000_0000_0000,
                0x7fff_ffff_ffff_ffff,
            );
            lemma_mul_abs_bound(
                o.num as int,
                self.den as int,
                0x8000_0000_0000_0000,
                0x7fff_ffff_ffff_ffff,
            );
        }
        (self.num as i128) * (o.den as i128) == (o.num as i128) * (self.den as i128)
    }

    /// Whether `0 <= self <= 1`.
    pub fn in_unit(self) -> (r: bool)
        requires
            self.wf(),
        ensures
            r == q_in_unit(self@),
    {
        0 <= self.num && self.num <= self.den
    }
}

} // verus!
