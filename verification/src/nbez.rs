//! The generic, runtime-order curve evaluator.
//!
//! A curve is its control points; evaluation computes the Bernstein-basis
//! sum exactly over rationals, with the weights taken from the per-curve
//! `FactorCache`. Every query's exact value is stated by the spec-level
//! folds below, and a query reports `ValueOverflow` exactly when some
//! intermediate of that fold no longer fits the machine word.

use vstd::prelude::*;
use vstd::seq_lib::*;

use crate::BevError;
use crate::coeff::FactorCache;
use crate::coeff::binom;
use crate::coeff::lemma_binom_le_two_pow;
use crate::coeff::lemma_two_pow_62;
use crate::coeff::lemma_two_pow_20;
use crate::coeff::lemma_two_pow_mono;
use crate::point::Point;
use crate::point::Vector;
use crate::rat::Q;
use crate::rat::Rat;
use crate::rat::q_add;
use crate::rat::q_sub;
use crate::rat::q_mul;
use crate::rat::q_int;
use crate::rat::q_one_minus;
use crate::rat::q_in_unit;
use crate::rat::q_bounded;
use crate::rat::q_lerp;
use crate::rat::q_wf;
use crate::rat::q_eq;
use crate::rat::lemma_mul_abs_bound;

verus! {

/// `t^k`, associated exactly as the evaluator multiplies it out.
pub open spec fn q_pow(t: Q, k: nat) -> Q
    decreases k,
{
    if k == 0 {
        q_int(1)
    } else {
        q_mul(q_pow(t, (k - 1) as nat), t)
    }
}

/// All the partial powers up to `t^k` fit the machine word.
pub open spec fn pow_fits(t: Q, k: nat) -> bool
    decreases k,
{
    k == 0 || (pow_fits(t, (k - 1) as nat) && q_bounded(q_pow(t, k)))
}

pub proof fn lemma_pow_fits_mono(t: Q, k1: nat, k2: nat)
    requires
        k1 <= k2,
        pow_fits(t, k2),
    ensures
        pow_fits(t, k1),
    decreases k2,
{
    if k1 < k2 {
        lemma_pow_fits_mono(t, k1, (k2 - 1) as nat);
    }
}

/// The `k`-th Bernstein term of the component sequence `cs` at `t`:
/// `P_k * t^k * (1-t)^(n-k) * C(n, k)`, multiplied in that order.
pub open spec fn bez_term(cs: Seq<Q>, t: Q, k: nat) -> Q {
    let n = (cs.len() - 1) as nat;
    q_mul(
        q_mul(q_mul(cs[k as int], q_pow(t, k)), q_pow(q_one_minus(t), (n - k) as nat)),
        q_int(binom(n, k) as int),
    )
}

/// Every intermediate of the `k`-th term fits the machine word.
pub open spec fn term_fits(cs: Seq<Q>, t: Q, k: nat) -> bool {
    let n = (cs.len() - 1) as nat;
    let t1 = q_one_minus(t);
    &&& q_bounded(t1)
    &&& pow_fits(t, k)
    &&& pow_fits(t1, (n - k) as nat)
    &&& q_bounded(q_mul(cs[k as int], q_pow(t, k)))
    &&& q_bounded(q_mul(q_mul(cs[k as int], q_pow(t, k)), q_pow(t1, (n - k) as nat)))
    &&& q_bounded(bez_term(cs, t, k))
}

/// The sum of the first `k` Bernstein terms, folded from zero as the
/// evaluator folds them.
pub open spec fn bez_fold(cs: Seq<Q>, t: Q, k: nat) -> Q
    decreases k,
{
    if k == 0 {
        q_int(0)
    } else {
        q_add(bez_fold(cs, t, (k - 1) as nat), bez_term(cs, t, (k - 1) as nat))
    }
}

/// Every intermediate of the first `k` terms and partial sums fits.
pub open spec fn fold_fits(cs: Seq<Q>, t: Q, k: nat) -> bool
    decreases k,
{
    k == 0 || {
        &&& fold_fits(cs, t, (k - 1) as nat)
        &&& term_fits(cs, t, (k - 1) as nat)
        &&& q_bounded(bez_fold(cs, t, k))
    }
}

pub proof fn lemma_fold_fits_mono(cs: Seq<Q>, t: Q, k1: nat, k2: nat)
    requires
        k1 <= k2,
        fold_fits(cs, t, k2),
    ensures
        fold_fits(cs, t, k1),
    decreases k2,
{
    if k1 < k2 {
        lemma_fold_fits_mono(cs, t, k1, (k2 - 1) as nat);
    }
}

/// The Bernstein-basis value of one component sequence at `t`:
/// `sum over k of C(n,k) * t^k * (1-t)^(n-k) * P_k`.
pub open spec fn bez_val(cs: Seq<Q>, t: Q) -> Q {
    bez_fold(cs, t, cs.len())
}

/// The whole interpolation fold fits the machine word.
pub open spec fn bez_fits(cs: Seq<Q>, t: Q) -> bool {
    fold_fits(cs, t, cs.len())
}

/// The spec values of a component vector.
pub open spec fn vals(s: Seq<Rat>) -> Seq<Q> {
    s.map_values(|r: Rat| r@)
}

pub open spec fn rats_wf(s: Seq<Rat>) -> bool {
    forall|i: int| 0 <= i < s.len() ==> (#[trigger] s[i]).wf()
}

/// The x components of a point sequence.
pub open spec fn comp_x(s: Seq<Point>) -> Seq<Q> {
    s.map_values(|p: Point| p.x@)
}

/// The y components of a point sequence.
pub open spec fn comp_y(s: Seq<Point>) -> Seq<Q> {
    s.map_values(|p: Point| p.y@)
}

pub open spec fn pts_wf(s: Seq<Point>) -> bool {
    forall|i: int| 0 <= i < s.len() ==> (#[trigger] s[i]).wf()
}

/// Both components of the interpolation fold fit.
pub open spec fn interp_fits(s: Seq<Point>, t: Q) -> bool {
    bez_fits(comp_x(s), t) && bez_fits(comp_y(s), t)
}

/// The `k`-th term of the derivative of the Bernstein sum:
/// `(P_{k+1} - P_k) * t^k * (1-t)^(n-1-k) * (C(n-1, k) * n)`.
pub open spec fn slope_term(cs: Seq<Q>, t: Q, k: nat) -> Q {
    let n = (cs.len() - 1) as nat;
    q_mul(
        q_mul(
            q_mul(q_sub(cs[k as int + 1], cs[k as int]), q_pow(t, k)),
            q_pow(q_one_minus(t), (n - 1 - k) as nat),
        ),
        q_int((binom((n - 1) as nat, k) * n) as int),
    )
}

/// Every intermediate of the `k`-th derivative term fits.
pub open spec fn slope_term_fits(cs: Seq<Q>, t: Q, k: nat) -> bool {
    let n = (cs.len() - 1) as nat;
    let t1 = q_one_minus(t);
    let d = q_sub(cs[k as int + 1], cs[k as int]);
    &&& q_bounded(t1)
    &&& q_bounded(d)
    &&& pow_fits(t, k)
    &&& pow_fits(t1, (n - 1 - k) as nat)
    &&& q_bounded(q_mul(d, q_pow(t, k)))
    &&& q_bounded(q_mul(q_mul(d, q_pow(t, k)), q_pow(t1, (n - 1 - k) as nat)))
    &&& q_bounded(slope_term(cs, t, k))
}

/// The sum of the first `k` derivative terms, folded from zero.
pub open spec fn slope_fold(cs: Seq<Q>, t: Q, k: nat) -> Q
    decreases k,
{
    if k == 0 {
        q_int(0)
    } else {
        q_add(slope_fold(cs, t, (k - 1) as nat), slope_term(cs, t, (k - 1) as nat))
    }
}

pub open spec fn slope_fold_fits(cs: Seq<Q>, t: Q, k: nat) -> bool
    decreases k,
{
    k == 0 || {
        &&& slope_fold_fits(cs, t, (k - 1) as nat)
        &&& slope_term_fits(cs, t, (k - 1) as nat)
        &&& q_bounded(slope_fold(cs, t, k))
    }
}

pub proof fn lemma_slope_fold_fits_mono(cs: Seq<Q>, t: Q, k1: nat, k2: nat)
    requires
        k1 <= k2,
        slope_fold_fits(cs, t, k2),
    ensures
        slope_fold_fits(cs, t, k1),
    decreases k2,
{
    if k1 < k2 {
        lemma_slope_fold_fits_mono(cs, t, k1, (k2 - 1) as nat);
    }
}

/// The derivative of the Bernstein sum of one component at `t`:
/// `sum over k of C(n-1,k) * t^k * (1-t)^(n-1-k) * n * (P_{k+1} - P_k)`.
pub open spec fn slope_val(cs: Seq<Q>, t: Q) -> Q {
    slope_fold(cs, t, (cs.len() - 1) as nat)
}

/// The whole derivative fold fits the machine word.
pub open spec fn slope_fits(cs: Seq<Q>, t: Q) -> bool {
    slope_fold_fits(cs, t, (cs.len() - 1) as nat)
}

/// Both components of the derivative fold fit.
pub open spec fn slope_all_fits(s: Seq<Point>, t: Q) -> bool {
    slope_fits(comp_x(s), t) && slope_fits(comp_y(s), t)
}

/// All elements of a component sequence have positive denominators.
pub open spec fn qs_wf(cs: Seq<Q>) -> bool {
    forall|i: int| 0 <= i < cs.len() ==> q_wf(#[trigger] cs[i])
}

pub proof fn lemma_pow_wf(t: Q, k: nat)
    requires
        q_wf(t),
    ensures
        q_wf(q_pow(t, k)),
    decreases k,
{
    if k > 0 {
        lemma_pow_wf(t, (k - 1) as nat);
        crate::rat::lemma_mul_pos(q_pow(t, (k - 1) as nat).d, t.d);
    }
}

/// A power of a rational whose numerator and denominator agree (a pair
/// naming the value one) again has agreeing numerator and denominator.
pub proof fn lemma_pow_of_one(t: Q, k: nat)
    requires
        t.n == t.d,
    ensures
        q_pow(t, k).n == q_pow(t, k).d,
    decreases k,
{
    if k > 0 {
        lemma_pow_of_one(t, (k - 1) as nat);
    }
}

/// A positive power of a rational with numerator zero has numerator zero.
pub proof fn lemma_pow_of_zero(t: Q, k: nat)
    requires
        t.n == 0,
        k >= 1,
    ensures
        q_pow(t, k).n == 0,
    decreases k,
{
    if k > 1 {
        lemma_pow_of_zero(t, (k - 1) as nat);
        let p = q_pow(t, (k - 1) as nat);
        assert(p.n * t.n == 0) by (nonlinear_arith)
            requires
                p.n == 0 || t.n == 0,
        ;
    } else {
        assert(q_pow(t, 0) == q_int(1));
    }
}

/// The `k`-th Bernstein term is well-formed and, at a `t` naming zero
/// with `k >= 1`, has numerator zero.
proof fn lemma_term_wf(cs: Seq<Q>, t: Q, k: nat)
    requires
        qs_wf(cs),
        q_wf(t),
        cs.len() >= 1,
        k < cs.len(),
    ensures
        q_wf(bez_term(cs, t, k)),
        t.n == 0 && k >= 1 ==> bez_term(cs, t, k).n == 0,
        t.n == t.d && k < cs.len() - 1 ==> bez_term(cs, t, k).n == 0,
{
    let n = (cs.len() - 1) as nat;
    let t1 = q_one_minus(t);
    let tp = q_pow(t, k);
    let t1p = q_pow(t1, (n - k) as nat);
    let c = cs[k as int];
    lemma_pow_wf(t, k);
    lemma_pow_wf(t1, (n - k) as nat);
    crate::rat::lemma_mul_pos(c.d, tp.d);
    crate::rat::lemma_mul_pos(c.d * tp.d, t1p.d);
    crate::rat::lemma_mul_pos(c.d * tp.d * t1p.d, 1);
    let b = crate::coeff::binom(n, k) as int;
    if t.n == 0 && k >= 1 {
        lemma_pow_of_zero(t, k);
        assert(c.n * tp.n == 0) by (nonlinear_arith)
            requires
                tp.n == 0,
        ;
        assert(c.n * tp.n * t1p.n == 0) by (nonlinear_arith)
            requires
                c.n * tp.n == 0,
        ;
        assert(c.n * tp.n * t1p.n * b == 0) by (nonlinear_arith)
            requires
                c.n * tp.n * t1p.n == 0,
        ;
    }
    if t.n == t.d && k < cs.len() - 1 {
        lemma_pow_of_zero(t1, (n - k) as nat);
        assert(c.n * tp.n * t1p.n == 0) by (nonlinear_arith)
            requires
                t1p.n == 0,
        ;
        assert(c.n * tp.n * t1p.n * b == 0) by (nonlinear_arith)
            requires
                c.n * tp.n * t1p.n == 0,
        ;
    }
}

/// The partial Bernstein sums are well-formed.
proof fn lemma_fold_wf(cs: Seq<Q>, t: Q, k: nat)
    requires
        qs_wf(cs),
        q_wf(t),
        cs.len() >= 1,
        k <= cs.len(),
    ensures
        q_wf(bez_fold(cs, t, k)),
    decreases k,
{
    if k > 0 {
        lemma_fold_wf(cs, t, (k - 1) as nat);
        lemma_term_wf(cs, t, (k - 1) as nat);
        crate::rat::lemma_mul_pos(
            bez_fold(cs, t, (k - 1) as nat).d,
            bez_term(cs, t, (k - 1) as nat).d,
        );
    }
}

/// Adding a term with numerator zero keeps the value of the sum.
proof fn lemma_add_zero_term(a: Q, z: Q)
    requires
        q_wf(a),
        q_wf(z),
        z.n == 0,
    ensures
        q_eq(q_add(a, z), a),
{
    assert((a.n * z.d + 0 * a.d) * a.d == a.n * (a.d * z.d)) by (nonlinear_arith);
}

/// Endpoint identity at zero: the Bernstein sum of any non-empty
/// component sequence, taken at a `t` whose value is `0`, is the value
/// of the first component: `interp(0) == P_0`.
pub proof fn lemma_interp_at_zero(cs: Seq<Q>, t: Q)
    requires
        cs.len() >= 1,
        qs_wf(cs),
        q_wf(t),
        q_eq(t, q_int(0)),
    ensures
        q_eq(bez_val(cs, t), cs[0]),
{
    assert(t.n == 0);
    lemma_fold_zero_eq(cs, t, cs.len());
}

/// The partial sums from the first term on all name `P_0` at `t == 0`.
proof fn lemma_fold_zero_eq(cs: Seq<Q>, t: Q, k: nat)
    requires
        1 <= k <= cs.len(),
        qs_wf(cs),
        q_wf(t),
        t.n == 0,
    ensures
        q_eq(bez_fold(cs, t, k), cs[0]),
    decreases k,
{
    let n = (cs.len() - 1) as nat;
    let t1 = q_one_minus(t);
    if k == 1 {
        let tp = q_pow(t, 0);
        let t1p = q_pow(t1, n);
        assert(t1 == (Q { n: t.d, d: t.d }));
        lemma_pow_of_one(t1, n);
        lemma_pow_wf(t1, n);
        let c = cs[0];
        let term = bez_term(cs, t, 0);
        assert(crate::coeff::binom(n, 0) == 1);
        assert(term.n == c.n * 1 * t1p.n * 1);
        assert(term.d == c.d * 1 * t1p.d * 1);
        let f1 = bez_fold(cs, t, 1);
        assert(bez_fold(cs, t, 0) == q_int(0));
        assert(f1 == q_add(q_int(0), term));
        assert(f1.n == 0 * term.d + term.n * 1);
        assert(f1.d == 1 * term.d);
        assert(f1.n == term.n);
        assert(f1.d == term.d);
        assert(term.n == c.n * t1p.n) by (nonlinear_arith)
            requires
                term.n == c.n * 1 * t1p.n * 1,
        ;
        assert(term.d == c.d * t1p.d) by (nonlinear_arith)
            requires
                term.d == c.d * 1 * t1p.d * 1,
        ;
        assert((c.n * t1p.n) * c.d == c.n * (c.d * t1p.d)) by (nonlinear_arith)
            requires
                t1p.n == t1p.d,
        ;
        assert(q_eq(f1, c));
    } else {
        lemma_fold_zero_eq(cs, t, (k - 1) as nat);
        lemma_term_wf(cs, t, (k - 1) as nat);
        lemma_fold_wf(cs, t, (k - 1) as nat);
        lemma_fold_wf(cs, t, k);
        lemma_add_zero_term(bez_fold(cs, t, (k - 1) as nat), bez_term(cs, t, (k - 1) as nat));
        crate::rat::lemma_q_eq_trans(bez_fold(cs, t, k), bez_fold(cs, t, (k - 1) as nat), cs[0]);
    }
}

/// Endpoint identity at one: the Bernstein sum of any non-empty
/// component sequence, taken at a `t` whose value is `1`, is the value
/// of the last component: `interp(1) == P_n`.
pub proof fn lemma_interp_at_one(cs: Seq<Q>, t: Q)
    requires
        cs.len() >= 1,
        qs_wf(cs),
        q_wf(t),
        q_eq(t, q_int(1)),
    ensures
        q_eq(bez_val(cs, t), cs[cs.len() - 1]),
{
    assert(t.n == t.d);
    let n = (cs.len() - 1) as nat;
    lemma_fold_one_zero(cs, t, n);
    let fn_ = bez_fold(cs, t, n);
    let term = bez_term(cs, t, n);
    let t1 = q_one_minus(t);
    let tp = q_pow(t, n);
    let c = cs[n as int];
    lemma_pow_of_one(t, n);
    lemma_pow_wf(t, n);
    lemma_fold_wf(cs, t, n);
    lemma_term_wf(cs, t, n);
    crate::coeff::lemma_binom_n_n(n);
    assert(q_pow(t1, 0) == q_int(1));
    assert(term.n == c.n * tp.n * 1 * 1);
    assert(term.d == c.d * tp.d * 1 * 1);
    let fl = bez_fold(cs, t, n + 1);
    assert(fl.n == fn_.n * term.d + term.n * fn_.d);
    assert(fl.d == fn_.d * term.d);
    assert(bez_val(cs, t) == fl);
    assert((fn_.n * (c.d * tp.d) + (c.n * tp.n) * fn_.d) * c.d == c.n * ((fn_.d) * (c.d * tp.d)))
        by (nonlinear_arith)
        requires
            fn_.n == 0,
            tp.n == tp.d,
    ;
    assert(q_eq(fl, c));
}

/// The sum of the first `n` terms has numerator zero at `t == 1`: every
/// term short of the last carries a positive power of `1 - t`.
proof fn lemma_fold_one_zero(cs: Seq<Q>, t: Q, k: nat)
    requires
        k <= cs.len() - 1,
        qs_wf(cs),
        q_wf(t),
        t.n == t.d,
    ensures
        bez_fold(cs, t, k).n == 0,
    decreases k,
{
    if k > 0 {
        lemma_fold_one_zero(cs, t, (k - 1) as nat);
        lemma_term_wf(cs, t, (k - 1) as nat);
        let f = bez_fold(cs, t, (k - 1) as nat);
        let term = bez_term(cs, t, (k - 1) as nat);
        assert(f.n * term.d + term.n * f.d == 0) by (nonlinear_arith)
            requires
                f.n == 0,
                term.n == 0,
        ;
    }
}

/// The component sequences of a well-formed point sequence are
/// well-formed and of its length.
pub proof fn lemma_comp_wf(s: Seq<Point>)
    requires
        pts_wf(s),
    ensures
        qs_wf(comp_x(s)),
        qs_wf(comp_y(s)),
        comp_x(s).len() == s.len(),
        comp_y(s).len() == s.len(),
{
    assert forall|i: int| 0 <= i < comp_x(s).len() implies q_wf(#[trigger] comp_x(s)[i]) by {
        assert(s[i].wf());
    }
    assert forall|i: int| 0 <= i < comp_y(s).len() implies q_wf(#[trigger] comp_y(s)[i]) by {
        assert(s[i].wf());
    }
}

/// The endpoint property at the curve level: at a `t` naming zero the
/// interpolation value is the first control point, and at a `t` naming
/// one it is the last, component by component and exactly.
pub proof fn lemma_curve_endpoints(s: Seq<Point>, t0: Q, t1: Q)
    requires
        pts_wf(s),
        s.len() >= 1,
        q_wf(t0),
        q_wf(t1),
        q_eq(t0, q_int(0)),
        q_eq(t1, q_int(1)),
    ensures
        q_eq(bez_val(comp_x(s), t0), s[0].x@),
        q_eq(bez_val(comp_y(s), t0), s[0].y@),
        q_eq(bez_val(comp_x(s), t1), s[s.len() - 1].x@),
        q_eq(bez_val(comp_y(s), t1), s[s.len() - 1].y@),
{
    lemma_comp_wf(s);
    lemma_interp_at_zero(comp_x(s), t0);
    lemma_interp_at_zero(comp_y(s), t0);
    lemma_interp_at_one(comp_x(s), t1);
    lemma_interp_at_one(comp_y(s), t1);
}

/// `t^k`, or `None` exactly when some partial power leaves the word.
fn rat_pow(t: Rat, k: usize) -> (r: Option<Rat>)
    requires
        t.wf(),
    ensures
        r is Some <==> pow_fits(t@, k as nat),
        r matches Some(v) ==> v.wf() && v@ == q_pow(t@, k as nat),
{
    let mut acc = Rat::from_int(1);
    let mut i: usize = 0;
    while i < k
        invariant
            t.wf(),
            acc.wf(),
            i <= k,
            acc@ == q_pow(t@, i as nat),
            pow_fits(t@, i as nat),
        decreases k - i,
    {
        match acc.mul(t) {
            Some(v) => {
                acc = v;
            },
            None => {
                proof {
                    assert(!pow_fits(t@, (i + 1) as nat));
                    if pow_fits(t@, k as nat) {
                        lemma_pow_fits_mono(t@, (i + 1) as nat, k as nat);
                    }
                }
                return None;
            },
        }
        i = i + 1;
    }
    Some(acc)
}

/// The Bernstein fold of one component sequence, with the weights taken
/// from a cache that is valid for `order`.
pub(crate) fn eval_axis(cs: &Vec<Rat>, t: Rat, cache: &FactorCache, order: usize) -> (r: Option<Rat>)
    requires
        t.wf(),
        rats_wf(cs@),
        cs@.len() == order + 1,
        order <= 21,
        cache.valid_for(order as nat),
    ensures
        r is Some <==> bez_fits(vals(cs@), t@),
        r matches Some(v) ==> v.wf() && v@ == bez_val(vals(cs@), t@),
{
    let ghost qs = vals(cs@);
    proof {
        assert(qs.len() == cs@.len());
    }
    let t1 = match Rat::from_int(1).sub(t) {
        Some(v) => v,
        None => {
            proof {
                assert(!term_fits(qs, t@, 0));
                assert(!fold_fits(qs, t@, 1));
                if fold_fits(qs, t@, qs.len()) {
                    lemma_fold_fits_mono(qs, t@, 1, qs.len());
                }
            }
            return None;
        },
    };
    let mut acc = Rat::from_int(0);
    let mut k: usize = 0;
    while k <= order
        invariant
            t.wf(),
            t1.wf(),
            t1@ == q_one_minus(t@),
            rats_wf(cs@),
            cs@.len() == order + 1,
            order <= 21,
            cache.valid_for(order as nat),
            qs == vals(cs@),
            k <= order + 1,
            acc.wf(),
            acc@ == bez_fold(qs, t@, k as nat),
            fold_fits(qs, t@, k as nat),
        decreases order + 1 - k,
    {
        let ghost kn = k as nat;
        let tp = match rat_pow(t, k) {
            Some(v) => v,
            None => {
                proof {
                    assert(!term_fits(qs, t@, kn));
                    assert(!fold_fits(qs, t@, kn + 1));
                    if fold_fits(qs, t@, qs.len()) {
                        lemma_fold_fits_mono(qs, t@, kn + 1, qs.len());
                    }
                }
                return None;
            },
        };
        let t1p = match rat_pow(t1, order - k) {
            Some(v) => v,
            None => {
                proof {
                    assert(!term_fits(qs, t@, kn));
                    assert(!fold_fits(qs, t@, kn + 1));
                    if fold_fits(qs, t@, qs.len()) {
                        lemma_fold_fits_mono(qs, t@, kn + 1, qs.len());
                    }
                }
                return None;
            },
        };
        let m1 = match cs[k].mul(tp) {
            Some(v) => v,
            None => {
                proof {
                    assert(!term_fits(qs, t@, kn));
                    assert(!fold_fits(qs, t@, kn + 1));
                    if fold_fits(qs, t@, qs.len()) {
                        lemma_fold_fits_mono(qs, t@, kn + 1, qs.len());
                    }
                }
                return None;
            },
        };
        let m2 = match m1.mul(t1p) {
            Some(v) => v,
            None => {
                proof {
                    assert(!term_fits(qs, t@, kn));
                    assert(!fold_fits(qs, t@, kn + 1));
                    if fold_fits(qs, t@, qs.len()) {
                        lemma_fold_fits_mono(qs, t@, kn + 1, qs.len());
                    }
                }
                return None;
            },
        };
        let f = cache.factor_at(order, k);
        proof {
            lemma_binom_le_two_pow(order as nat, k as nat);
            lemma_two_pow_mono(order as nat, 62);
            lemma_two_pow_62();
        }
        let fr = Rat::from_int(f as i64);
        proof {
            assert(fr@ == q_int(binom(order as nat, kn) as int));
            assert(bez_term(qs, t@, kn) == q_mul(q_mul(q_mul(qs[k as int], tp@), t1p@), fr@));
        }
        let m3 = match m2.mul(fr) {
            Some(v) => v,
            None => {
                proof {
                    assert(!term_fits(qs, t@, kn));
                    assert(!fold_fits(qs, t@, kn + 1));
                    if fold_fits(qs, t@, qs.len()) {
                        lemma_fold_fits_mono(qs, t@, kn + 1, qs.len());
                    }
                }
                return None;
            },
        };
        let next = match acc.add(m3) {
            Some(v) => v,
            None => {
                proof {
                    assert(!q_bounded(bez_fold(qs, t@, kn + 1)));
                    assert(!fold_fits(qs, t@, kn + 1));
                    if fold_fits(qs, t@, qs.len()) {
                        lemma_fold_fits_mono(qs, t@, kn + 1, qs.len());
                    }
                }
                return None;
            },
        };
        proof {
            assert(term_fits(qs, t@, kn));
            assert(next@ == bez_fold(qs, t@, kn + 1));
            assert(fold_fits(qs, t@, kn + 1));
        }
        acc = next;
        k = k + 1;
    }
    Some(acc)
}

/// Every intermediate of one component's elevation step fits.
pub open spec fn lerp_fits(a: Q, b: Q, s: Q) -> bool {
    &&& q_bounded(q_sub(b, a))
    &&& q_bounded(q_mul(q_sub(b, a), s))
    &&& q_bounded(q_lerp(a, b, s))
}

/// The interpolation ratio `i / len` of degree elevation (the new order
/// is `len`, the old point count).
pub open spec fn elev_ratio(len: int, i: int) -> Q {
    Q { n: i, d: len }
}

/// Elevation step `i` fits in both components.
pub open spec fn elev_ok_at(s: Seq<Point>, i: int) -> bool {
    &&& lerp_fits(s[i].x@, s[i - 1].x@, elev_ratio(s.len() as int, i))
    &&& lerp_fits(s[i].y@, s[i - 1].y@, elev_ratio(s.len() as int, i))
}

/// Every elevation step fits the machine word.
pub open spec fn elev_fits(s: Seq<Point>) -> bool {
    forall|i: int| 1 <= i < s.len() ==> #[trigger] elev_ok_at(s, i)
}

/// The derivative fold of one component sequence, with the derivative
/// weights taken from a cache that is valid for `order`.
pub(crate) fn slope_axis(cs: &Vec<Rat>, t: Rat, cache: &FactorCache, order: usize) -> (r: Option<Rat>)
    requires
        t.wf(),
        rats_wf(cs@),
        cs@.len() == order + 1,
        1 <= order <= 21,
        cache.valid_for(order as nat),
    ensures
        r is Some <==> slope_fits(vals(cs@), t@),
        r matches Some(v) ==> v.wf() && v@ == slope_val(vals(cs@), t@),
{
    let ghost qs = vals(cs@);
    proof {
        assert(qs.len() == cs@.len());
    }
    let t1 = match Rat::from_int(1).sub(t) {
        Some(v) => v,
        None => {
            proof {
                assert(!slope_term_fits(qs, t@, 0));
                assert(!slope_fold_fits(qs, t@, 1));
                if slope_fold_fits(qs, t@, (qs.len() - 1) as nat) {
                    lemma_slope_fold_fits_mono(qs, t@, 1, (qs.len() - 1) as nat);
                }
            }
            return None;
        },
    };
    let mut acc = Rat::from_int(0);
    let mut k: usize = 0;
    while k < order
        invariant
            t.wf(),
            t1.wf(),
            t1@ == q_one_minus(t@),
            rats_wf(cs@),
            cs@.len() == order + 1,
            1 <= order <= 21,
            cache.valid_for(order as nat),
            qs == vals(cs@),
            k <= order,
            acc.wf(),
            acc@ == slope_fold(qs, t@, k as nat),
            slope_fold_fits(qs, t@, k as nat),
        decreases order - k,
    {
        let ghost kn = k as nat;
        let d = match cs[k + 1].sub(cs[k]) {
            Some(v) => v,
            None => {
                proof {
                    assert(!slope_term_fits(qs, t@, kn));
                    assert(!slope_fold_fits(qs, t@, kn + 1));
                    if slope_fold_fits(qs, t@, (qs.len() - 1) as nat) {
                        lemma_slope_fold_fits_mono(qs, t@, kn + 1, (qs.len() - 1) as nat);
                    }
                }
                return None;
            },
        };
        let tp = match rat_pow(t, k) {
            Some(v) => v,
            None => {
                proof {
                    assert(!slope_term_fits(qs, t@, kn));
                    assert(!slope_fold_fits(qs, t@, kn + 1));
                    if slope_fold_fits(qs, t@, (qs.len() - 1) as nat) {
                        lemma_slope_fold_fits_mono(qs, t@, kn + 1, (qs.len() - 1) as nat);
                    }
                }
                return None;
            },
        };
        let t1p = match rat_pow(t1, order - 1 - k) {
            Some(v) => v,
            None => {
                proof {
                    assert(!slope_term_fits(qs, t@, kn));
                    assert(!slope_fold_fits(qs, t@, kn + 1));
                    if slope_fold_fits(qs, t@, (qs.len() - 1) as nat) {
                        lemma_slope_fold_fits_mono(qs, t@, kn + 1, (qs.len() - 1) as nat);
                    }
                }
                return None;
            },
        };
        let m1 = match d.mul(tp) {
            Some(v) => v,
            None => {
                proof {
                    assert(!slope_term_fits(qs, t@, kn));
                    assert(!slope_fold_fits(qs, t@, kn + 1));
                    if slope_fold_fits(qs, t@, (qs.len() - 1) as nat) {
                        lemma_slope_fold_fits_mono(qs, t@, kn + 1, (qs.len() - 1) as nat);
                    }
                }
                return None;
            },
        };
        let m2 = match m1.mul(t1p) {
            Some(v) => v,
            None => {
                proof {
                    assert(!slope_term_fits(qs, t@, kn));
                    assert(!slope_fold_fits(qs, t@, kn + 1));
                    if slope_fold_fits(qs, t@, (qs.len() - 1) as nat) {
                        lemma_slope_fold_fits_mono(qs, t@, kn + 1, (qs.len() - 1) as nat);
                    }
                }
                return None;
            },
        };
        let df = cache.dfactor_at(order, k);
        proof {
            lemma_binom_le_two_pow((order - 1) as nat, k as nat);
            lemma_two_pow_mono((order - 1) as nat, 20);
            lemma_two_pow_20();
            lemma_mul_abs_bound(df as int, order as int, 0x10_0000, 21);
        }
        let f: u64 = df * (order as u64);
        let fr = Rat::from_int(f as i64);
        proof {
            assert(fr@ == q_int((binom((order - 1) as nat, kn) * (order as nat)) as int));
            assert(slope_term(qs, t@, kn) == q_mul(q_mul(q_mul(d@, tp@), t1p@), fr@));
        }
        let m3 = match m2.mul(fr) {
            Some(v) => v,
            None => {
                proof {
                    assert(!slope_term_fits(qs, t@, kn));
                    assert(!slope_fold_fits(qs, t@, kn + 1));
                    if slope_fold_fits(qs, t@, (qs.len() - 1) as nat) {
                        lemma_slope_fold_fits_mono(qs, t@, kn + 1, (qs.len() - 1) as nat);
                    }
                }
                return None;
            },
        };
        let next = match acc.add(m3) {
            Some(v) => v,
            None => {
                proof {
                    assert(!q_bounded(slope_fold(qs, t@, kn + 1)));
                    assert(!slope_fold_fits(qs, t@, kn + 1));
                    if slope_fold_fits(qs, t@, (qs.len() - 1) as nat) {
                        lemma_slope_fold_fits_mono(qs, t@, kn + 1, (qs.len() - 1) as nat);
                    }
                }
                return None;
            },
        };
        proof {
            assert(slope_term_fits(qs, t@, kn));
            assert(next@ == slope_fold(qs, t@, kn + 1));
            assert(slope_fold_fits(qs, t@, kn + 1));
        }
        acc = next;
        k = k + 1;
    }
    Some(acc)
}

/// An n-order Bézier curve: the control points, and the private
/// coefficient cache that memoizes the Bernstein weights of the current
/// order. The cache is confined to this instance (queries take
/// `&mut self`) and is no part of the curve's logical state.
#[derive(Debug, Clone)]
pub struct NBez {
    points: Vec<Point>,
    cache: FactorCache,
}

impl View for NBez {
    type V = Seq<Point>;

    closed spec fn view(&self) -> Seq<Point> {
        self.points@
    }
}

impl NBez {
    /// Well-formed: one to twenty-two control points (order at most 21),
    /// each with positive denominators, and a sound cache.
    pub closed spec fn wf(self) -> bool {
        &&& 1 <= self.points@.len() <= 22
        &&& pts_wf(self.points@)
        &&& self.cache.wf()
    }

    /// The view is the points, and well-formedness is visible on it.
    pub proof fn lemma_wf_view(self)
        requires
            self.wf(),
        ensures
            1 <= self@.len() <= 22,
            pts_wf(self@),
    {
    }

    /// Wrap a control-point sequence as a curve of order `len - 1`.
    ///
    /// An empty sequence has no order and reports `InvalidLength`; more
    /// than twenty-two points would need combinatorics past the exact
    /// range and reports `OrderOverflow`.
    pub fn from_container(points: Vec<Point>) -> (r: Result<NBez, BevError>)
        requires
            pts_wf(points@),
        ensures
            match r {
                Ok(c) => c.wf() && c@ == points@ && 1 <= points@.len() <= 22,
                Err(e) => {
                    ||| e == BevError::InvalidLength && points@.len() == 0
                    ||| e == BevError::OrderOverflow && points@.len() > 22
                },
            },
    {
        if points.len() == 0 {
            return Err(BevError::InvalidLength);
        }
        if points.len() > 22 {
            return Err(BevError::OrderOverflow);
        }
        Ok(NBez { points, cache: FactorCache::new() })
    }

    /// Hand the control points back.
    pub fn unwrap(self) -> (r: Vec<Point>)
        ensures
            r@ == self@,
    {
        self.points
    }

    /// The curve's order: one less than the number of control points.
    pub fn order(&self) -> (r: usize)
        requires
            self.wf(),
        ensures
            r == self@.len() - 1,
    {
        self.points.len() - 1
    }

    /// Read access to the control points.
    pub fn points(&self) -> (r: &Vec<Point>)
        ensures
            r@ == self@,
    {
        &self.points
    }

    /// Overwrite one control point in place; the order (and so the
    /// cached coefficients) is unchanged.
    pub fn set_point(&mut self, i: usize, p: Point)
        requires
            old(self).wf(),
            i < old(self)@.len(),
            p.wf(),
        ensures
            final(self).wf(),
            final(self)@ == old(self)@.update(i as int, p),
    {
        self.points[i] = p;
    }

    /// The Bernstein sum at `t` without a domain check: callers accept
    /// responsibility for `t`, and the value may extrapolate outside the
    /// curve. `None` exactly when the exact fold leaves the machine word.
    pub fn interp_unbounded(&mut self, t: Rat) -> (r: Option<Point>)
        requires
            old(self).wf(),
            t.wf(),
        ensures
            final(self).wf(),
            final(self)@ == old(self)@,
            r is Some <==> interp_fits(old(self)@, t@),
            r matches Some(p) ==> p.wf() && p.x@ == bez_val(comp_x(old(self)@), t@) && p.y@
                == bez_val(comp_y(old(self)@), t@),
    {
        let order = self.points.len() - 1;
        self.cache.update_factors(order);
        let mut cx: Vec<Rat> = Vec::new();
        let mut cy: Vec<Rat> = Vec::new();
        let mut i: usize = 0;
        while i < self.points.len()
            invariant
                self.wf(),
                i <= self.points@.len(),
                cx@.len() == i,
                cy@.len() == i,
                forall|j: int| 0 <= j < i ==> cx@[j] == self.points@[j].x,
                forall|j: int| 0 <= j < i ==> cy@[j] == self.points@[j].y,
            decreases self.points@.len() - i,
        {
            let p = self.points[i];
            cx.push(p.x);
            cy.push(p.y);
            i = i + 1;
        }
        proof {
            assert(vals(cx@) =~= comp_x(self.points@));
            assert(vals(cy@) =~= comp_y(self.points@));
            assert(rats_wf(cx@));
            assert(rats_wf(cy@));
        }
        let rx = eval_axis(&cx, t, &self.cache, order);
        let ry = eval_axis(&cy, t, &self.cache, order);
        match (rx, ry) {
            (Some(x), Some(y)) => Some(Point::new(x, y)),
            _ => None,
        }
    }

    /// The curve position at `t`, with the domain check.
    ///
    /// `DomainError` exactly when `t` is outside `[0, 1]`, and
    /// `ValueOverflow` exactly when the exact fold leaves the machine
    /// word; otherwise the exact Bernstein value.
    pub fn interp(&mut self, t: Rat) -> (r: Result<Point, BevError>)
        requires
            old(self).wf(),
            t.wf(),
        ensures
            final(self).wf(),
            final(self)@ == old(self)@,
            match r {
                Ok(p) => q_in_unit(t@) && interp_fits(old(self)@, t@) && p.wf() && p.x@ == bez_val(
                    comp_x(old(self)@),
                    t@,
                ) && p.y@ == bez_val(comp_y(old(self)@), t@),
                Err(e) => {
                    ||| e == BevError::DomainError && !q_in_unit(t@)
                    ||| e == BevError::ValueOverflow && q_in_unit(t@) && !interp_fits(
                        old(self)@,
                        t@,
                    )
                },
            },
    {
        if !t.in_unit() {
            return Err(BevError::DomainError);
        }
        match self.interp_unbounded(t) {
            Some(p) => Ok(p),
            None => Err(BevError::ValueOverflow),
        }
    }

    /// The derivative at `t` without a domain check, as a displacement.
    /// A curve of order zero has the zero derivative everywhere.
    pub fn slope_unbounded(&mut self, t: Rat) -> (r: Option<Vector>)
        requires
            old(self).wf(),
            t.wf(),
        ensures
            final(self).wf(),
            final(self)@ == old(self)@,
            r is Some <==> slope_all_fits(old(self)@, t@),
            r matches Some(v) ==> v.wf() && v.x@ == slope_val(comp_x(old(self)@), t@) && v.y@
                == slope_val(comp_y(old(self)@), t@),
    {
        let order = self.points.len() - 1;
        if order == 0 {
            return Some(Vector::new(Rat::from_int(0), Rat::from_int(0)));
        }
        self.cache.update_factors(order);
        let mut cx: Vec<Rat> = Vec::new();
        let mut cy: Vec<Rat> = Vec::new();
        let mut i: usize = 0;
        while i < self.points.len()
            invariant
                self.wf(),
                i <= self.points@.len(),
                cx@.len() == i,
                cy@.len() == i,
                forall|j: int| 0 <= j < i ==> cx@[j] == self.points@[j].x,
                forall|j: int| 0 <= j < i ==> cy@[j] == self.points@[j].y,
            decreases self.points@.len() - i,
        {
            let p = self.points[i];
            cx.push(p.x);
            cy.push(p.y);
            i = i + 1;
        }
        proof {
            assert(vals(cx@) =~= comp_x(self.points@));
            assert(vals(cy@) =~= comp_y(self.points@));
            assert(rats_wf(cx@));
            assert(rats_wf(cy@));
        }
        let rx = slope_axis(&cx, t, &self.cache, order);
        let ry = slope_axis(&cy, t, &self.cache, order);
        match (rx, ry) {
            (Some(x), Some(y)) => Some(Vector::new(x, y)),
            _ => None,
        }
    }

    /// The derivative at `t`, with the domain check; errors as `interp`.
    pub fn slope(&mut self, t: Rat) -> (r: Result<Vector, BevError>)
        requires
            old(self).wf(),
            t.wf(),
        ensures
            final(self).wf(),
            final(self)@ == old(self)@,
            match r {
                Ok(v) => q_in_unit(t@) && slope_all_fits(old(self)@, t@) && v.wf() && v.x@
                    == slope_val(comp_x(old(self)@), t@) && v.y@ == slope_val(
                    comp_y(old(self)@),
                    t@,
                ),
                Err(e) => {
                    ||| e == BevError::DomainError && !q_in_unit(t@)
                    ||| e == BevError::ValueOverflow && q_in_unit(t@) && !slope_all_fits(
                        old(self)@,
                        t@,
                    )
                },
            },
    {
        if !t.in_unit() {
            return Err(BevError::DomainError);
        }
        match self.slope_unbounded(t) {
            Some(v) => Ok(v),
            None => Err(BevError::ValueOverflow),
        }
    }

    /// Degree elevation: an equivalent curve of the next order, with
    /// `Q_0 = P_0`, `Q_{n+1} = P_n` and
    /// `Q_i = lerp(P_i, P_{i-1}, i / (n+1))` in between.
    ///
    /// `OrderOverflow` exactly when the curve already has the largest
    /// exact order, `ValueOverflow` exactly when an elevated point leaves
    /// the machine word.
    pub fn elevate(&self) -> (r: Result<NBez, BevError>)
        requires
            self.wf(),
        ensures
            match r {
                Ok(c) => {
                    &&& self@.len() <= 21
                    &&& elev_fits(self@)
                    &&& c.wf()
                    &&& c@.len() == self@.len() + 1
                    &&& c@[0] == self@[0]
                    &&& c@[self@.len() as int] == self@[self@.len() - 1]
                    &&& forall|i: int|
                        1 <= i < self@.len() ==> (#[trigger] c@[i]).x@ == q_lerp(
                            self@[i].x@,
                            self@[i - 1].x@,
                            elev_ratio(self@.len() as int, i),
                        ) && c@[i].y@ == q_lerp(
                            self@[i].y@,
                            self@[i - 1].y@,
                            elev_ratio(self@.len() as int, i),
                        )
                },
                Err(e) => {
                    ||| e == BevError::OrderOverflow && self@.len() == 22
                    ||| e == BevError::ValueOverflow && self@.len() <= 21 && !elev_fits(self@)
                },
            },
    {
        let len = self.points.len();
        if len >= 22 {
            return Err(BevError::OrderOverflow);
        }
        let mut el: Vec<Point> = Vec::new();
        el.push(self.points[0]);
        let mut i: usize = 1;
        while i < len
            invariant
                self.wf(),
                len == self@.len(),
                1 <= len <= 21,
                1 <= i <= len,
                el@.len() == i,
                el@[0] == self@[0],
                pts_wf(el@),
                forall|j: int| 1 <= j < i ==> #[trigger] elev_ok_at(self@, j),
                forall|j: int|
                    1 <= j < i ==> (#[trigger] el@[j]).x@ == q_lerp(
                        self@[j].x@,
                        self@[j - 1].x@,
                        elev_ratio(len as int, j),
                    ) && el@[j].y@ == q_lerp(
                        self@[j].y@,
                        self@[j - 1].y@,
                        elev_ratio(len as int, j),
                    ),
            decreases len - i,
        {
            let s = Rat::new(i as i64, len as i64);
            let d = match self.points[i - 1].sub(self.points[i]) {
                Some(v) => v,
                None => {
                    proof {
                        assert(!elev_ok_at(self@, i as int));
                    }
                    return Err(BevError::ValueOverflow);
                },
            };
            let sv = match d.mul(s) {
                Some(v) => v,
                None => {
                    proof {
                        assert(!elev_ok_at(self@, i as int));
                    }
                    return Err(BevError::ValueOverflow);
                },
            };
            let q = match self.points[i].add(sv) {
                Some(v) => v,
                None => {
                    proof {
                        assert(!elev_ok_at(self@, i as int));
                    }
                    return Err(BevError::ValueOverflow);
                },
            };
            proof {
                assert(elev_ok_at(self@, i as int));
            }
            el.push(q);
            i = i + 1;
        }
        el.push(self.points[len - 1]);
        Ok(NBez { points: el, cache: FactorCache::new() })
    }

    /// Subdivision at `t` (de Casteljau bisection) is part of the public
    /// surface but is not supported: it reports `None` for every input.
    pub fn split(&self, _t: Rat) -> (r: Option<(NBez, NBez)>)
        ensures
            r is None,
    {
        None
    }
}

} // verus!
