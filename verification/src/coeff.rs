//! Exact integer combinatorics and the per-curve coefficient cache.
//!
//! `binom` is the specification of the binomial coefficient (Pascal's
//! rule); the executable `combination` and the `FactorCache` rows are
//! proved equal to it. The cache keeps, for one order at a time, the
//! Bernstein weights `C(order, k)` and the derivative weights
//! `C(order - 1, k)`; `update_factors` is a no-op when the cached order
//! already matches.

use vstd::prelude::*;

use crate::rat::lemma_mul_pos;

verus! {

/// `n!` at the specification level.
pub open spec fn spec_fact(n: nat) -> nat
    decreases n,
{
    if n == 0 {
        1
    } else {
        n * spec_fact((n - 1) as nat)
    }
}

/// The binomial coefficient `C(n, k)` by Pascal's rule.
pub open spec fn binom(n: nat, k: nat) -> nat
    decreases n,
{
    if k == 0 {
        1
    } else if k > n {
        0
    } else {
        binom((n - 1) as nat, (k - 1) as nat) + binom((n - 1) as nat, k)
    }
}

/// `2^n` at the specification level.
pub open spec fn two_pow(n: nat) -> nat
    decreases n,
{
    if n == 0 {
        1
    } else {
        2 * two_pow((n - 1) as nat)
    }
}

pub proof fn lemma_two_pow_pos(n: nat)
    ensures
        two_pow(n) >= 1,
    decreases n,
{
    if n > 0 {
        lemma_two_pow_pos((n - 1) as nat);
    }
}

pub proof fn lemma_two_pow_mono(a: nat, b: nat)
    requires
        a <= b,
    ensures
        two_pow(a) <= two_pow(b),
    decreases b,
{
    if a < b {
        lemma_two_pow_mono(a, (b - 1) as nat);
        lemma_two_pow_pos((b - 1) as nat);
    }
}

/// `C(n, n) == 1`.
pub proof fn lemma_binom_n_n(n: nat)
    ensures
        binom(n, n) == 1,
    decreases n,
{
    if n > 0 {
        lemma_binom_n_n((n - 1) as nat);
        assert(binom((n - 1) as nat, n) == 0);
    }
}

/// The concrete value of `20!`, the largest factorial the executable
/// `factorial` can return.
pub proof fn lemma_fact_20()
    ensures
        spec_fact(20) == 2432902008176640000,
{
    reveal_with_fuel(spec_fact, 21);
}

/// The concrete value of `2^62`, the bound used while building rows.
pub proof fn lemma_two_pow_62()
    ensures
        two_pow(62) == 0x4000_0000_0000_0000,
{
    reveal_with_fuel(two_pow, 63);
}

/// The concrete value of `2^20`, the bound on a derivative weight of an
/// order within the exact range.
pub proof fn lemma_two_pow_20()
    ensures
        two_pow(20) == 0x10_0000,
{
    reveal_with_fuel(two_pow, 21);
}

/// Every binomial coefficient of row `n` is at most `2^n`.
pub proof fn lemma_binom_le_two_pow(n: nat, k: nat)
    ensures
        binom(n, k) <= two_pow(n),
    decreases n,
{
    lemma_two_pow_pos(n);
    if k != 0 && k <= n {
        lemma_binom_le_two_pow((n - 1) as nat, (k - 1) as nat);
        lemma_binom_le_two_pow((n - 1) as nat, k);
    }
}

/// Binomial symmetry: `C(n, k) == C(n, n - k)` for `k <= n`.
pub proof fn lemma_binom_symmetry(n: nat, k: nat)
    requires
        k <= n,
    ensures
        binom(n, k) == binom(n, (n - k) as nat),
    decreases n,
{
    if k == 0 {
        lemma_binom_n_n(n);
    } else if k == n {
        lemma_binom_n_n(n);
    } else {
        lemma_binom_symmetry((n - 1) as nat, (k - 1) as nat);
        lemma_binom_symmetry((n - 1) as nat, k);
    }
}

/// Pascal's rule agrees with the factorial formula:
/// `C(n, k) * k! * (n - k)! == n!` for `k <= n`.
pub proof fn lemma_binom_fact(n: nat, k: nat)
    requires
        k <= n,
    ensures
        binom(n, k) * spec_fact(k) * spec_fact((n - k) as nat) == spec_fact(n),
    decreases n,
{
    if k == 0 {
        assert(binom(n, 0) == 1);
        assert(spec_fact(0) == 1);
        assert(1 * spec_fact(0) * spec_fact(n) == spec_fact(n));
    } else if k == n {
        lemma_binom_n_n(n);
        assert(spec_fact((n - n) as nat) == 1);
        assert(1 * spec_fact(n) * 1 == spec_fact(n));
    } else {
        let a = binom((n - 1) as nat, (k - 1) as nat);
        let b = binom((n - 1) as nat, k);
        lemma_binom_fact((n - 1) as nat, (k - 1) as nat);
        lemma_binom_fact((n - 1) as nat, k);
        let fk1 = spec_fact((k - 1) as nat);
        let fk = spec_fact(k);
        let fnk = spec_fact((n - k) as nat);
        let fnk1 = spec_fact((n - 1 - k) as nat);
        let fn1 = spec_fact((n - 1) as nat);
        assert(fk == k * fk1);
        assert(((n - k) as nat - 1) as nat == (n - 1 - k) as nat);
        assert(fnk == (n - k) * fnk1);
        assert(((n - 1) as nat - (k - 1) as nat) as nat == (n - k) as nat);
        assert(((n - 1) as nat - k) as nat == (n - 1 - k) as nat);
        assert(a * fk1 * fnk == fn1);
        assert(b * fk * fnk1 == fn1);
        assert(a * fk * fnk == k * fn1) by (nonlinear_arith)
            requires
                fk == k * fk1,
                a * fk1 * fnk == fn1,
        ;
        assert(b * fk * fnk == (n - k) * fn1) by (nonlinear_arith)
            requires
                fnk == (n - k) * fnk1,
                b * fk * fnk1 == fn1,
                k <= n,
        ;
        assert(binom(n, k) == a + b);
        assert((a + b) * fk * fnk == n * fn1) by (nonlinear_arith)
            requires
                a * fk * fnk == k * fn1,
                b * fk * fnk == (n - k) * fn1,
                k <= n,
        ;
        assert(spec_fact(n) == n * fn1);
    }
}

pub proof fn lemma_fact_pos(n: nat)
    ensures
        spec_fact(n) >= 1,
    decreases n,
{
    if n > 0 {
        lemma_fact_pos((n - 1) as nat);
        lemma_mul_pos(n as int, spec_fact((n - 1) as nat) as int);
    }
}

/// `a <= b` implies `a! <= b!`.
pub proof fn lemma_fact_mono(a: nat, b: nat)
    requires
        a <= b,
    ensures
        spec_fact(a) <= spec_fact(b),
    decreases b,
{
    if a < b {
        lemma_fact_mono(a, (b - 1) as nat);
        lemma_fact_pos((b - 1) as nat);
        assert(b * spec_fact((b - 1) as nat) >= spec_fact((b - 1) as nat))
            by (nonlinear_arith)
            requires
                b >= 1,
                spec_fact((b - 1) as nat) >= 1,
        ;
    }
}

/// `n!`, by the running product.
pub fn factorial(n: u64) -> (r: u64)
    requires
        n <= 20,
    ensures
        r as nat == spec_fact(n as nat),
{
    let mut acc: u64 = 1;
    let mut i: u64 = 0;
    while i < n
        invariant
            i <= n <= 20,
            acc as nat == spec_fact(i as nat),
        decreases n - i,
    {
        let ghost f = spec_fact(i as nat);
        i = i + 1;
        proof {
            lemma_fact_mono(i as nat, 20);
            lemma_fact_20();
            assert(spec_fact(i as nat) == i * f);
            assert(i * f == f * i) by (nonlinear_arith);
        }
        acc = acc * i;
    }
    acc
}

/// One step of Pascal's triangle: row `i` gives row `i + 1`.
fn next_row(row: &Vec<u64>, i: usize) -> (r: Vec<u64>)
    requires
        i <= 62,
        row@.len() == i + 1,
        forall|j: int| 0 <= j <= i ==> row@[j] as nat == binom(i as nat, j as nat),
    ensures
        r@.len() == i + 2,
        forall|j: int| 0 <= j <= i + 1 ==> r@[j] as nat == binom((i + 1) as nat, j as nat),
{
    let mut next: Vec<u64> = Vec::new();
    next.push(1);
    let mut j: usize = 1;
    while j <= i
        invariant
            1 <= j <= i + 1,
            i <= 62,
            row@.len() == i + 1,
            forall|m: int| 0 <= m <= i ==> row@[m] as nat == binom(i as nat, m as nat),
            next@.len() == j,
            forall|m: int| 0 <= m < j ==> next@[m] as nat == binom((i + 1) as nat, m as nat),
        decreases i + 1 - j,
    {
        proof {
            lemma_binom_le_two_pow(i as nat, (j - 1) as nat);
            lemma_binom_le_two_pow(i as nat, j as nat);
            lemma_two_pow_mono(i as nat, 62);
            lemma_two_pow_62();
        }
        let v: u64 = row[j - 1] + row[j];
        next.push(v);
        j = j + 1;
    }
    next.push(1);
    proof {
        lemma_binom_n_n((i + 1) as nat);
    }
    next
}

/// The binomial coefficient `C(n, k)`, by building Pascal's triangle.
pub fn combination(n: u64, k: u64) -> (r: u64)
    requires
        k <= n,
        n <= 63,
    ensures
        r as nat == binom(n as nat, k as nat),
{
    let mut row: Vec<u64> = Vec::new();
    row.push(1);
    let mut i: usize = 0;
    while i < n as usize
        invariant
            n <= 63,
            i <= n as usize,
            row@.len() == i + 1,
            forall|j: int| 0 <= j <= i ==> row@[j] as nat == binom(i as nat, j as nat),
        decreases n as usize - i,
    {
        row = next_row(&row, i);
        i = i + 1;
    }
    row[k as usize]
}

/// Start and end of a slice of the cache's backing vector; kept instead
/// of a standard range so that the cache stays a plain copyable value.
#[derive(Debug, Clone, Copy)]
pub struct RangeSlice {
    pub start: usize,
    pub end: usize,
}

impl RangeSlice {
    pub open spec fn wf(self) -> bool {
        self.start <= self.end
    }

    pub fn new(start: usize, end: usize) -> (r: RangeSlice)
        requires
            start <= end,
        ensures
            r.start == start,
            r.end == end,
    {
        RangeSlice { start, end }
    }

    pub fn as_range(&self) -> (r: core::ops::Range<usize>)
        ensures
            r.start == self.start,
            r.end == self.end,
    {
        self.start..self.end
    }

    pub fn len(&self) -> (r: usize)
        requires
            self.wf(),
        ensures
            r == self.end - self.start,
    {
        self.end - self.start
    }
}

/// The per-curve coefficient cache: one backing vector holding the
/// Bernstein weights of the cached order followed by the derivative
/// weights, each addressed by a `RangeSlice`.
///
/// The cache is plain mutable state confined to its owning curve (the
/// thread-confined choice): queries on a curve take `&mut self` and may
/// rewrite the cache, and nothing else.
#[derive(Debug, Clone)]
pub struct FactorCache {
    vec: Vec<u64>,
    factors: RangeSlice,
    dfactors: RangeSlice,
}

impl FactorCache {
    /// The cache holds exactly the weights of `order`:
    /// `vec[k] == C(order, k)` for `k <= order` and
    /// `vec[order + 1 + k] == C(order - 1, k)` for `k < order`.
    pub closed spec fn valid_for(self, order: nat) -> bool {
        &&& self.factors.start == 0
        &&& self.factors.end == order + 1
        &&& self.dfactors.start == order + 1
        &&& self.dfactors.end == 2 * order + 1
        &&& self.vec@.len() == 2 * order + 1
        &&& forall|k: int| 0 <= k <= order ==> self.vec@[k] as nat == binom(order, k as nat)
        &&& forall|k: int|
            0 <= k < order ==> self.vec@[order + 1 + k] as nat == #[trigger] binom(
                (order - 1) as nat,
                k as nat,
            )
    }

    /// Either still untouched, or valid for the order its range encodes.
    pub closed spec fn wf(self) -> bool {
        if self.factors.end == 0 {
            self.factors.start == 0 && self.dfactors.wf()
        } else {
            self.valid_for((self.factors.end - 1) as nat)
        }
    }

    /// An empty cache; the first `update_factors` fills it.
    pub fn new() -> (r: FactorCache)
        ensures
            r.wf(),
    {
        FactorCache {
            vec: Vec::new(),
            factors: RangeSlice::new(0, 0),
            dfactors: RangeSlice::new(0, 0),
        }
    }

    /// Make the cache valid for `order`: a no-op when the cached order
    /// already matches (the length check is proved sound by `wf`),
    /// otherwise both weight rows are recomputed exactly.
    pub fn update_factors(&mut self, order: usize)
        requires
            old(self).wf(),
            order <= 21,
        ensures
            final(self).wf(),
            final(self).valid_for(order as nat),
    {
        if self.factors.len() == order + 1 {
            return ;
        }
        let mut row: Vec<u64> = Vec::new();
        row.push(1);
        let mut prev: Vec<u64> = Vec::new();
        let mut i: usize = 0;
        while i < order
            invariant
                order <= 21,
                i <= order,
                row@.len() == i + 1,
                forall|j: int| 0 <= j <= i ==> row@[j] as nat == binom(i as nat, j as nat),
                i == 0 ==> prev@.len() == 0,
                i >= 1 ==> prev@.len() == i,
                i >= 1 ==> forall|j: int|
                    0 <= j < i ==> prev@[j] as nat == binom((i - 1) as nat, j as nat),
            decreases order - i,
        {
            let next = next_row(&row, i);
            prev = row;
            row = next;
            i = i + 1;
        }
        let mut vec = row;
        let mut k: usize = 0;
        while k < prev.len()
            invariant
                order <= 21,
                k <= prev@.len(),
                vec@.len() == order + 1 + k,
                order >= 1 ==> prev@.len() == order,
                order == 0 ==> prev@.len() == 0,
                forall|j: int| 0 <= j <= order ==> vec@[j] as nat == binom(order as nat, j as nat),
                forall|j: int|
                    0 <= j < prev@.len() ==> prev@[j] as nat == binom(
                        (order - 1) as nat,
                        j as nat,
                    ),
                forall|j: int|
                    0 <= j < k ==> vec@[order + 1 + j] as nat == #[trigger] binom(
                        (order - 1) as nat,
                        j as nat,
                    ),
            decreases prev@.len() - k,
        {
            vec.push(prev[k]);
            k = k + 1;
        }
        self.vec = vec;
        self.factors = RangeSlice::new(0, order + 1);
        self.dfactors = RangeSlice::new(order + 1, 2 * order + 1);
    }

    /// The Bernstein weight `C(order, k)` out of a valid cache.
    pub fn factor_at(&self, order: usize, k: usize) -> (r: u64)
        requires
            self.valid_for(order as nat),
            k <= order,
        ensures
            r as nat == binom(order as nat, k as nat),
    {
        self.vec[self.factors.start + k]
    }

    /// The derivative weight `C(order - 1, k)` out of a valid cache.
    pub fn dfactor_at(&self, order: usize, k: usize) -> (r: u64)
        requires
            self.valid_for(order as nat),
            order >= 1,
            k < order,
        ensures
            r as nat == binom((order - 1) as nat, k as nat),
    {
        proof {
            let ghost o: nat = order as nat;
            let ghost kk: int = k as int;
            assert(self.vec@[o + 1 + kk] as nat == binom((o - 1) as nat, kk as nat));
        }
        self.vec[self.dfactors.start + k]
    }
}

} // verus!
