//! Numbers as the expression tree and the results hold them.
use vstd::prelude::*;

verus! {

/// A double-precision (IEEE 754 binary64) number, held as its bit pattern.
///
/// The tree and the results only carry numbers; the arithmetic on them is
/// done where the number is turned back into an `f64`.
#[derive(Debug, Clone, Copy)]
pub struct Number {
    /// The IEEE 754 binary64 encoding of the number.
    pub bits: u64,
}

/// 2 to the power `n`.
pub open spec fn two_pow(n: nat) -> nat
    decreases n,
{
    if n == 0 {
        1
    } else {
        2 * two_pow((n - 1) as nat)
    }
}

/// The position of the highest set bit of `n` (0 for `n` < 2).
pub open spec fn highest_bit(n: nat) -> nat
    decreases n,
{
    if n < 2 {
        0
    } else {
        1 + highest_bit(n / 2)
    }
}

/// The binary64 encoding of the whole number `n` (exact for `n` < 2^53):
/// zero is all zero bits; otherwise, with `e` the position of the highest set
/// bit, the biased exponent is `1023 + e` and the 52-bit fraction is
/// `(n − 2^e)·2^(52 − e)`.
pub open spec fn binary64_of_nat(n: nat) -> nat {
    if n == 0 {
        0
    } else {
        let e = highest_bit(n);
        ((1023 + e) * two_pow(52) + (n - two_pow(e)) * two_pow((52 - e) as nat)) as nat
    }
}

proof fn lemma_two_pow_mono(m: nat, n: nat)
    requires
        m <= n,
    ensures
        1 <= two_pow(m) <= two_pow(n),
    decreases n,
{
    if n > m {
        lemma_two_pow_mono(m, (n - 1) as nat);
    } else if n > 0 {
        lemma_two_pow_mono(0, (n - 1) as nat);
    }
}

proof fn lemma_two_pow_adds(a: nat, b: nat)
    ensures
        two_pow(a + b) == two_pow(a) * two_pow(b),
    decreases b,
{
    if b > 0 {
        let b1 = (b - 1) as nat;
        lemma_two_pow_adds(a, b1);
        assert(a + b == (a + b1) + 1);
        assert(two_pow(a + b) == 2 * two_pow(a + b1));
        assert(two_pow(b) == 2 * two_pow(b1));
        let x = two_pow(a);
        let y = two_pow(b1);
        assert(x * (2 * y) == 2 * (x * y)) by (nonlinear_arith);
    } else {
        assert(two_pow(0) == 1);
        assert(a + b == a);
    }
}

proof fn lemma_two_pow_52()
    ensures
        two_pow(52) == 0x10_0000_0000_0000,
{
    reveal_with_fuel(two_pow, 53);
}

/// One halving step of the search for the highest bit keeps
/// `p·q <= n < p·q + p`.
proof fn lemma_halving_step(p: int, q: int, n: int)
    requires
        p >= 1,
        q >= 2,
        p * q <= n < p * q + p,
    ensures
        (2 * p) * (q / 2) <= n < (2 * p) * (q / 2) + 2 * p,
        2 * p <= n,
{
    let q2 = q / 2;
    let r = q % 2;
    assert(q == 2 * q2 + r);
    assert(p * q == 2 * p * q2 + p * r) by (nonlinear_arith)
        requires
            q == 2 * q2 + r,
    ;
    assert(0 <= p * r <= p) by (nonlinear_arith)
        requires
            0 <= r <= 1,
            p >= 1,
    ;
    assert(2 * p <= p * q) by (nonlinear_arith)
        requires
            q >= 2,
            p >= 1,
    ;
    assert((2 * p) * q2 == 2 * p * q2) by (nonlinear_arith);
}

/// `x·2^k`, computed by doubling.
fn times_two_pow(x: u64, k: u64) -> (r: u64)
    requires
        x * two_pow(k as nat) <= u64::MAX,
    ensures
        r == x * two_pow(k as nat),
{
    let mut r = x;
    let mut i: u64 = 0;
    assert(two_pow(0) == 1);
    while i < k
        invariant
            i <= k,
            x * two_pow(k as nat) <= u64::MAX,
            r == x * two_pow(i as nat),
        decreases k - i,
    {
        proof {
            lemma_two_pow_mono((i + 1) as nat, k as nat);
            let a = two_pow((i + 1) as nat);
            let b = two_pow(i as nat);
            let c = two_pow(k as nat);
            assert(a == 2 * b);
            assert(x * a == 2 * (x * b)) by (nonlinear_arith)
                requires
                    a == 2 * b,
            ;
            assert(x * a <= x * c) by (nonlinear_arith)
                requires
                    a <= c,
            ;
        }
        r = r * 2;
        i = i + 1;
    }
    r
}

impl Number {
    /// The number `n`, exactly (what `f64::from(n)` gives).
    pub fn from_u32(n: u32) -> (r: Number)
        ensures
            r.bits == binary64_of_nat(n as nat),
    {
        if n == 0 {
            return Number { bits: 0 };
        }
        let nn = n as u64;
        // Find the highest set bit: p = 2^e <= n < 2^(e+1).
        let mut e: u64 = 0;
        let mut p: u64 = 1;
        let mut q: u64 = nn;
        assert(two_pow(0) == 1);
        while q >= 2
            invariant
                1 <= q <= nn,
                p == two_pow(e as nat),
                p * q <= nn < p * q + p,
                highest_bit(nn as nat) == e + highest_bit(q as nat),
                nn < 0x1_0000_0000,
                e <= 31,
                1 <= p <= nn,
            decreases q,
        {
            proof {
                lemma_halving_step(p as int, q as int, nn as int);
                if e >= 31 {
                    lemma_two_pow_mono(31, (e + 1) as nat);
                    assert(two_pow(31) == 0x8000_0000) by {
                        reveal_with_fuel(two_pow, 32);
                    }
                }
                assert(q / 2 >= 1);
                assert(p * 1 <= p * (q / 2)) by (nonlinear_arith)
                    requires
                        q / 2 >= 1,
                        p >= 1,
                ;
            }
            q = q / 2;
            p = p * 2;
            e = e + 1;
        }
        proof {
            assert(q == 1);
            assert(highest_bit(1) == 0);
            lemma_two_pow_mono(e as nat, 52);
            lemma_two_pow_52();
        }
        let frac = nn - p;
        proof {
            let t = two_pow((52 - e) as nat);
            lemma_two_pow_mono(0, (52 - e) as nat);
            lemma_two_pow_adds(e as nat, (52 - e) as nat);
            assert(e as nat + (52 - e) as nat == 52);
            assert(p * t == two_pow(52));
            assert(frac * t < p * t) by (nonlinear_arith)
                requires
                    frac < p,
                    t >= 1,
            ;
            assert((1023 + e) * two_pow(52) < 2048 * 0x10_0000_0000_0000) by (nonlinear_arith)
                requires
                    1023 + e < 2048,
                    two_pow(52) == 0x10_0000_0000_0000,
            ;
        }
        let m = times_two_pow(frac, 52 - e);
        let base = times_two_pow(1023 + e, 52);
        Number { bits: base + m }
    }
}

/// Whether the sign bit of `n` is set.
pub open spec fn sign_bit(n: Number) -> bool {
    n.bits >= 0x8000_0000_0000_0000
}

/// The bits of `n` other than the sign: exponent and fraction.
pub open spec fn magnitude(n: Number) -> int {
    if sign_bit(n) {
        n.bits - 0x8000_0000_0000_0000
    } else {
        n.bits as int
    }
}

/// Whether `n` is a NaN: all exponent bits set and a fraction other than
/// zero.
pub open spec fn is_nan(n: Number) -> bool {
    magnitude(n) > 0x7ff0_0000_0000_0000
}

/// Whether `n` is zero, of either sign.
pub open spec fn is_zero(n: Number) -> bool {
    magnitude(n) == 0
}

/// A key that orders the numbers that are not NaN as their values are
/// ordered: binary64 orders the magnitudes of numbers of one sign as their
/// bit patterns, and `-0` and `+0` get the same key.
pub open spec fn order_key(n: Number) -> int {
    if sign_bit(n) {
        -magnitude(n)
    } else {
        magnitude(n)
    }
}

/// `a < b` as binary64 compares them (false when either is NaN).
pub open spec fn num_lt(a: Number, b: Number) -> bool {
    !is_nan(a) && !is_nan(b) && order_key(a) < order_key(b)
}

/// `a <= b` as binary64 compares them (false when either is NaN).
pub open spec fn num_le(a: Number, b: Number) -> bool {
    !is_nan(a) && !is_nan(b) && order_key(a) <= order_key(b)
}

impl Number {
    /// The ordering key of this number (see [`order_key`]).
    pub fn key(&self) -> (k: i64)
        ensures
            k == order_key(*self),
    {
        if self.bits >= 0x8000_0000_0000_0000 {
            -((self.bits - 0x8000_0000_0000_0000) as i64)
        } else {
            self.bits as i64
        }
    }

    /// Whether this number is a NaN.
    pub fn is_nan(&self) -> (r: bool)
        ensures
            r == is_nan(*self),
    {
        let m = if self.bits >= 0x8000_0000_0000_0000 {
            self.bits - 0x8000_0000_0000_0000
        } else {
            self.bits
        };
        m > 0x7ff0_0000_0000_0000
    }

    /// Whether this number is zero, of either sign.
    pub fn is_zero(&self) -> (r: bool)
        ensures
            r == is_zero(*self),
    {
        self.bits == 0 || self.bits == 0x8000_0000_0000_0000
    }

    /// `self < other`, as binary64 compares them.
    pub fn lt(&self, other: &Number) -> (r: bool)
        ensures
            r == num_lt(*self, *other),
    {
        !self.is_nan() && !other.is_nan() && self.key() < other.key()
    }

    /// `self <= other`, as binary64 compares them.
    pub fn le(&self, other: &Number) -> (r: bool)
        ensures
            r == num_le(*self, *other),
    {
        !self.is_nan() && !other.is_nan() && self.key() <= other.key()
    }
}

/// `a == b` as binary64 compares them: equal values, `-0 == +0`, and a NaN
/// equal to nothing.
pub open spec fn num_eq(a: Number, b: Number) -> bool {
    !is_nan(a) && !is_nan(b) && order_key(a) == order_key(b)
}

impl PartialEq for Number {
    /// Equality of the numbers' values, as binary64 defines it.
    fn eq(&self, other: &Number) -> (r: bool) {
        !self.is_nan() && !other.is_nan() && self.key() == other.key()
    }
}

impl vstd::std_specs::cmp::PartialEqSpecImpl for Number {
    open spec fn obeys_eq_spec() -> bool {
        true
    }

    open spec fn eq_spec(&self, other: &Number) -> bool {
        num_eq(*self, *other)
    }
}

} // verus!
