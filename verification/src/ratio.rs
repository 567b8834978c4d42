//! Exact fractions between zero and one, used for duty ratios and for the
//! share of a population that is replaced.

use vstd::prelude::*;

verus! {

/// A fraction `num / den`.
pub struct RatioModel {
    pub num: nat,
    pub den: nat,
}

impl RatioModel {
    /// The fraction lies in `[0, 1]` and its denominator is not zero.
    pub open spec fn wf(self) -> bool {
        0 < self.den && self.num <= self.den
    }

    /// `n` times the fraction, rounded down.
    pub open spec fn floor_of(self, n: nat) -> nat {
        ((n * self.num) / self.den) as nat
    }

    /// `n` times the fraction, rounded up.
    pub open spec fn ceil_of(self, n: nat) -> nat {
        ((n * self.num + self.den - 1) / (self.den as int)) as nat
    }

    /// One minus the fraction.
    pub open spec fn complement(self) -> RatioModel {
        RatioModel { num: (self.den - self.num) as nat, den: self.den }
    }
}

/// A fraction in `[0, 1]` with 32-bit numerator and denominator.
#[derive(Clone, Copy, Debug, PartialEq, Eq)]
pub struct Ratio {
    numerator: u32,
    denominator: u32,
}

impl View for Ratio {
    type V = RatioModel;

    closed spec fn view(&self) -> RatioModel {
        RatioModel { num: self.numerator as nat, den: self.denominator as nat }
    }
}

impl Ratio {
    #[verifier::type_invariant]
    spec fn inv(self) -> bool {
        self@.wf()
    }

    /// Builds `numerator / denominator`, or nothing when the denominator is
    /// zero or the fraction exceeds one.
    pub fn new(numerator: u32, denominator: u32) -> (r: Option<Ratio>)
        ensures
            r is Some <==> 0 < denominator && numerator <= denominator,
            r matches Some(q) ==> q@ == (RatioModel {
                num: numerator as nat,
                den: denominator as nat,
            }),
    {
        if denominator == 0 || numerator > denominator {
            None
        } else {
            Some(Ratio { numerator, denominator })
        }
    }

    /// The upper part of the fraction.
    pub fn numerator(&self) -> (r: u32)
        ensures
            r == self@.num,
    {
        self.numerator
    }

    /// The lower part of the fraction, never zero.
    pub fn denominator(&self) -> (r: u32)
        ensures
            r == self@.den,
            self@.wf(),
    {
        proof {
            use_type_invariant(self);
        }
        self.denominator
    }

    /// One minus this fraction.
    pub fn complement(&self) -> (r: Ratio)
        ensures
            r@ == self@.complement(),
            self@.wf(),
            r@.wf(),
    {
        proof {
            use_type_invariant(self);
        }
        Ratio { numerator: self.denominator - self.numerator, denominator: self.denominator }
    }

    /// `n` times this fraction, rounded down.
    pub fn floor_of(&self, n: u64) -> (r: u64)
        ensures
            r == self@.floor_of(n as nat),
            r <= n,
            self@.wf(),
    {
        proof {
            use_type_invariant(self);
            lemma_scaled_bounds(self@, n as nat);
            assert(n * self.numerator <= 0xffff_ffff_ffff_ffff * 0xffff_ffff) by (nonlinear_arith)
                requires
                    n <= 0xffff_ffff_ffff_ffff,
                    self.numerator <= 0xffff_ffff,
            ;
        }
        let product: u128 = n as u128 * self.numerator as u128;
        (product / self.denominator as u128) as u64
    }

    /// `n` times this fraction, rounded up.
    pub fn ceil_of(&self, n: u64) -> (r: u64)
        ensures
            r == self@.ceil_of(n as nat),
            r <= n,
            self@.wf(),
    {
        proof {
            use_type_invariant(self);
            lemma_scaled_bounds(self@, n as nat);
            assert(n * self.numerator <= 0xffff_ffff_ffff_ffff * 0xffff_ffff) by (nonlinear_arith)
                requires
                    n <= 0xffff_ffff_ffff_ffff,
                    self.numerator <= 0xffff_ffff,
            ;
        }
        let product: u128 = n as u128 * self.numerator as u128;
        ((product + (self.denominator as u128 - 1)) / self.denominator as u128) as u64
    }
}

/// Scaling by a fraction of at most one never grows a number, rounded either
/// way, and the product itself stays below `n * den + den`.
pub proof fn lemma_scaled_bounds(q: RatioModel, n: nat)
    requires
        q.wf(),
    ensures
        n * q.num <= n * q.den,
        q.floor_of(n) <= q.ceil_of(n) <= n,
{
    let d = q.den as int;
    let p = (n * q.num) as int;
    assert(p <= n * d) by (nonlinear_arith)
        requires
            p == n * q.num,
            q.num <= d,
            0 <= n,
    ;
    assert((p + d - 1) / d <= n && p / d <= (p + d - 1) / d && 0 <= p / d) by (nonlinear_arith)
        requires
            0 <= p <= n * d,
            0 < d,
    ;
}

/// Rounding a share and its complement up loses nothing of the whole and
/// adds at most one.
pub proof fn lemma_ceil_parts_cover(q: RatioModel, n: nat)
    requires
        q.wf(),
    ensures
        n <= q.ceil_of(n) + q.complement().ceil_of(n) <= n + 1,
{
    let d = q.den as int;
    let a = (n * q.num) as int;
    let b = (n * (q.den - q.num)) as int;
    assert(a + b == n * d && 0 <= a && 0 <= b) by (nonlinear_arith)
        requires
            a == n * q.num,
            b == n * (q.den - q.num),
            q.num <= q.den,
            d == q.den,
    ;
    assert(n <= (a + d - 1) / d + (b + d - 1) / d <= n + 1) by (nonlinear_arith)
        requires
            a + b == n * d,
            0 <= a,
            0 <= b,
            0 < d,
    ;
}

} // verus!
