//! Phases of spiders: rational multiples of a half-turn, kept modulo 2.
//!
//! A phase is stored as `num / den` with `1 <= den` and `0 <= num < 2 * den`,
//! so the represented value always lies in the half-open interval `[0, 2)`.
//! Addition reduces the result by the greatest common divisor, so a chain of
//! additions keeps denominators as small as the values allow.

use vstd::prelude::*;

verus! {

use vstd::arithmetic::div_mod::{
    lemma_fundamental_div_mod, lemma_mod_multiples_basic, lemma_mod_self_0, lemma_small_mod,
};

/// Largest denominator a well-formed phase may carry. Sums whose reduced
/// denominator would exceed this limit cannot be represented and fall back to
/// the left operand (see `Phase::add`).
pub const DEN_LIMIT: u64 = 0x8000_0000;

/// A rational multiple of a half-turn, kept modulo 2 (a full turn).
#[derive(Clone, Copy, PartialEq, Eq, Structural, Debug)]
pub struct Phase {
    pub num: u64,
    pub den: u64,
}

/// Greatest common divisor, as a mathematical function.
pub open spec fn spec_gcd(a: nat, b: nat) -> nat
    decreases b,
{
    if b == 0 {
        a
    } else {
        spec_gcd(b, a % b)
    }
}

/// The gcd of two numbers that are not both zero is positive and divides both.
pub proof fn lemma_gcd_divides(a: nat, b: nat)
    requires
        a + b > 0,
    ensures
        spec_gcd(a, b) >= 1,
        a % spec_gcd(a, b) == 0,
        b % spec_gcd(a, b) == 0,
    decreases b,
{
    let g = spec_gcd(a, b);
    if b == 0 {
        assert(g == a);
        lemma_mod_self_0(a as int);
        lemma_small_mod(0, a);
    } else {
        lemma_gcd_divides(b, (a % b) as nat);
        assert(g == spec_gcd(b, (a % b) as nat));
        lemma_fundamental_div_mod(a as int, b as int);
        lemma_fundamental_div_mod(b as int, g as int);
        lemma_fundamental_div_mod((a % b) as int, g as int);
        let k = b as int / g as int;
        let m = (a % b) as int / g as int;
        assert(b as int == g * k);
        assert((a % b) as int == g * m);
        assert(a as int == b * (a as int / b as int) + (a % b)) by {
            lemma_fundamental_div_mod(a as int, b as int);
        }
        let q = a as int / b as int;
        assert(a as int == (g * k) * q + g * m);
        assert((g * k) * q + g * m == (k * q + m) * g as int) by (nonlinear_arith);
        lemma_mod_multiples_basic(k * q + m, g as int);
        assert(a % g == 0);
    }
}

/// Euclid's algorithm.
pub fn gcd_u64(a: u64, b: u64) -> (g: u64)
    ensures
        g == spec_gcd(a as nat, b as nat),
{
    let mut x = a;
    let mut y = b;
    while y != 0
        invariant
            spec_gcd(x as nat, y as nat) == spec_gcd(a as nat, b as nat),
        decreases y,
    {
        let t = x % y;
        x = y;
        y = t;
    }
    x
}

/// `r` represents the sum of `p` and `q` modulo 2: writing the raw sum over
/// the common denominator `p.den * q.den` and reducing it modulo a full turn,
/// `r` equals that fraction.
pub open spec fn sum_is(p: Phase, q: Phase, r: Phase) -> bool {
    r.num * (p.den * q.den) == ((p.num * q.den + q.num * p.den) % (2 * (p.den * q.den))) * r.den
}

impl Phase {
    /// Well-formed: positive bounded denominator, value in `[0, 2)`.
    pub open spec fn wf(self) -> bool {
        1 <= self.den && self.den <= DEN_LIMIT && self.num < 2 * self.den
    }

    /// The represented value is zero.
    pub open spec fn spec_is_zero(self) -> bool {
        self.num == 0
    }

    /// The represented value is exactly one (a half turn, i.e. pi).
    pub open spec fn spec_is_one(self) -> bool {
        self.num == self.den
    }

    /// The value is 0 or 1: the phase of a Pauli spider.
    pub open spec fn spec_is_pauli(self) -> bool {
        self.num == 0 || self.num == self.den
    }

    /// The value is 1/2 or 3/2: a proper Clifford phase, eligible for
    /// local complementation.
    pub open spec fn spec_is_proper_clifford(self) -> bool {
        2 * self.num == self.den || 2 * self.num == 3 * self.den
    }

    /// The zero phase.
    pub fn zero() -> (r: Phase)
        ensures
            r.wf(),
            r.spec_is_zero(),
            r.num == 0 && r.den == 1,
    {
        Phase { num: 0, den: 1 }
    }

    /// A phase `num / den`, reduced modulo 2.
    pub fn new(num: u64, den: u64) -> (r: Phase)
        requires
            1 <= den <= DEN_LIMIT,
        ensures
            r.wf(),
            r.den == den,
            r.num == (num as int) % (2 * den as int),
    {
        Phase { num: num % (2 * den), den }
    }

    pub fn is_zero(&self) -> (r: bool)
        ensures
            r == self.spec_is_zero(),
    {
        self.num == 0
    }

    pub fn is_pauli(&self) -> (r: bool)
        ensures
            r == self.spec_is_pauli(),
    {
        self.num == 0 || self.num == self.den
    }

    pub fn is_one(&self) -> (r: bool)
        ensures
            r == self.spec_is_one(),
    {
        self.num == self.den
    }

    /// The value is exactly 1/2 (a quarter turn up).
    pub fn is_half(&self) -> (r: bool)
        requires
            self.wf(),
        ensures
            r == (2 * self.num == self.den),
    {
        2 * self.num == self.den
    }

    pub fn is_proper_clifford(&self) -> (r: bool)
        requires
            self.wf(),
        ensures
            r == self.spec_is_proper_clifford(),
    {
        2 * self.num == self.den || 2 * self.num == 3 * self.den
    }

    /// Sum of two phases modulo 2, reduced. Whenever the reduced denominator
    /// of the sum fits under `DEN_LIMIT` — in particular whenever the product
    /// of the two denominators does — the result is the exact sum; otherwise
    /// the left operand is returned unchanged.
    pub fn add(self, other: Phase) -> (r: Phase)
        requires
            self.wf(),
            other.wf(),
        ensures
            r.wf(),
            sum_is(self, other, r) || r == self,
            self.den * other.den <= DEN_LIMIT ==> sum_is(self, other, r),
    {
        assert(self.den * other.den <= DEN_LIMIT * DEN_LIMIT) by (nonlinear_arith)
            requires
                self.den <= DEN_LIMIT && other.den <= DEN_LIMIT,
        ;
        let d: u64 = self.den * other.den;
        assert(self.num * other.den < 2 * d && other.num * self.den < 2 * d) by (nonlinear_arith)
            requires
                self.num < 2 * self.den && other.num < 2 * other.den && d == self.den * other.den
                    && self.den >= 1 && other.den >= 1,
        ;
        let s: u64 = self.num * other.den + other.num * self.den;
        let m: u64 = s % (2 * d);
        let g: u64 = gcd_u64(m, d);
        proof {
            lemma_gcd_divides(m as nat, d as nat);
        }
        let rn = m / g;
        let rd = d / g;
        proof {
            lemma_fundamental_div_mod(m as int, g as int);
            lemma_fundamental_div_mod(d as int, g as int);
            assert(m as int == g * (rn as int));
            assert(d as int == g * (rd as int));
            assert(rd >= 1) by (nonlinear_arith)
                requires
                    d as int == g * (rd as int) && d >= 1 && rd >= 0,
            ;
            assert(m < 2 * d);
            assert(rn < 2 * rd) by (nonlinear_arith)
                requires
                    m as int == g * (rn as int) && d as int == g * (rd as int) && m < 2 * d && g
                        >= 1,
            ;
            assert((rn as int) * (d as int) == (m as int) * (rd as int)) by (nonlinear_arith)
                requires
                    m as int == g * (rn as int) && d as int == g * (rd as int),
            ;
            assert(rd <= d) by (nonlinear_arith)
                requires
                    d as int == g * (rd as int) && g >= 1 && rd >= 0,
            ;
        }
        if rd <= DEN_LIMIT {
            let r = Phase { num: rn, den: rd };
            proof {
                assert(sum_is(self, other, r));
            }
            r
        } else {
            self
        }
    }
}

} // verus!
