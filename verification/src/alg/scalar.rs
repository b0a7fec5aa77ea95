//! Saturating fixed-point numbers with 32 fractional bits.
//!
//! A `Scalar` stands for the rational number `raw / 2^32`. Every operation is
//! total: a result outside the range of `i64` is replaced by the nearest end of
//! the range, and a quotient is rounded down to the next raw unit.

use vstd::arithmetic::div_mod::lemma_fundamental_div_mod_converse;
use vstd::prelude::*;

verus! {

/// Raw units in one whole.
pub const ONE_RAW: i64 = 4294967296;

/// The largest magnitude that the wide intermediate results may take: 2^126.
pub const WIDE_LIMIT: i128 = 0x4000_0000_0000_0000_0000_0000_0000_0000;

/// The value of `i64` nearest to `v`.
pub open spec fn saturate(v: int) -> i64 {
    if v < i64::MIN {
        i64::MIN
    } else if v > i64::MAX {
        i64::MAX
    } else {
        v as i64
    }
}

/// The quotient `n / d` rounded towards negative infinity, for `d != 0`.
pub open spec fn floor_quotient(n: int, d: int) -> int
    recommends
        d != 0,
{
    if d > 0 {
        n / d
    } else {
        (-n) / (-d)
    }
}

/// The saturated, rounded-down quotient of `n` by `d`. A zero divisor gives
/// the end of the range on the side of `n`, and zero when `n` is zero too.
pub open spec fn ratio(n: int, d: int) -> i64 {
    if d == 0 {
        if n > 0 {
            i64::MAX
        } else if n < 0 {
            i64::MIN
        } else {
            0
        }
    } else {
        saturate(floor_quotient(n, d))
    }
}

/// The absolute value.
pub open spec fn magnitude(v: int) -> int {
    if v < 0 {
        -v
    } else {
        v
    }
}

/// `r` is the integer square root of `n`.
pub open spec fn is_root_of(r: int, n: int) -> bool {
    0 <= r && r * r <= n < (r + 1) * (r + 1)
}

/// The integer square root of `n`: the largest `r` with `r * r <= n`, and zero
/// for a negative `n`.
pub open spec fn isqrt(n: int) -> int {
    if n <= 0 {
        0
    } else {
        choose|r: int| is_root_of(r, n)
    }
}

/// At most one number is the integer square root of `n`.
pub proof fn lemma_root_unique(r: int, s: int, n: int)
    requires
        is_root_of(r, n),
        is_root_of(s, n),
    ensures
        r == s,
{
    if r < s {
        assert((r + 1) * (r + 1) <= s * s) by (nonlinear_arith)
            requires
                0 <= r,
                r + 1 <= s,
        ;
    }
    if s < r {
        assert((s + 1) * (s + 1) <= r * r) by (nonlinear_arith)
            requires
                0 <= s,
                s + 1 <= r,
        ;
    }
}

/// A number found to be the integer square root of `n` is `isqrt(n)`.
pub proof fn lemma_isqrt_is(r: int, n: int)
    requires
        is_root_of(r, n),
    ensures
        isqrt(n) == r,
{
    if n <= 0 {
        assert(r * r >= 0) by (nonlinear_arith);
        assert((r + 1) * (r + 1) >= 1) by (nonlinear_arith)
            requires
                0 <= r,
        ;
        if r > 0 {
            assert(r * r > 0) by (nonlinear_arith)
                requires
                    r > 0,
            ;
        }
    } else {
        let s = choose|s: int| is_root_of(s, n);
        lemma_root_unique(r, s, n);
    }
}

/// Every natural number has an integer square root, and `isqrt` is it.
pub proof fn lemma_isqrt_exists(n: int)
    requires
        0 <= n,
    ensures
        is_root_of(isqrt(n), n),
    decreases n,
{
    if n == 0 {
        assert(is_root_of(0, 0));
        lemma_isqrt_is(0, 0);
    } else {
        lemma_isqrt_exists(n - 1);
        let r = isqrt(n - 1);
        if (r + 1) * (r + 1) <= n {
            assert(n < (r + 2) * (r + 2)) by (nonlinear_arith)
                requires
                    n - 1 < (r + 1) * (r + 1),
                    0 <= r,
            ;
            lemma_isqrt_is(r + 1, n);
        } else {
            lemma_isqrt_is(r, n);
        }
    }
}

/// The integer square root of a square is its nonnegative base.
pub proof fn lemma_isqrt_of_square(r: int)
    requires
        0 <= r,
    ensures
        isqrt(r * r) == r,
{
    assert(r * r < (r + 1) * (r + 1)) by (nonlinear_arith)
        requires
            0 <= r,
    ;
    lemma_isqrt_is(r, r * r);
}

/// The value of `i64` nearest to a wide number.
fn saturate_wide(v: i128) -> (r: i64)
    ensures
        r == saturate(v as int),
{
    if v < -9223372036854775808i128 {
        i64::MIN
    } else if v > 9223372036854775807i128 {
        i64::MAX
    } else {
        v as i64
    }
}

/// The quotient of a wide number by a positive one, rounded down.
fn wide_floor_quotient(n: i128, d: i128) -> (q: i128)
    requires
        d > 0,
        -WIDE_LIMIT <= n <= WIDE_LIMIT,
    ensures
        q == n as int / d as int,
        -WIDE_LIMIT <= q <= WIDE_LIMIT,
{
    if n >= 0 {
        let q: i128 = n / d;
        proof {
            assert(0 <= n as int / d as int <= n) by (nonlinear_arith)
                requires
                    n >= 0,
                    d > 0,
            ;
        }
        q
    } else {
        let m: i128 = -n - 1;
        let below: i128 = m / d;
        proof {
            let r = m as int % d as int;
            assert(m as int == below as int * d as int + r && 0 <= r < d && 0 <= below <= m)
                by (nonlinear_arith)
                requires
                    m >= 0,
                    d > 0,
                    below == m as int / d as int,
                    r == m as int % d as int,
            ;
            assert(n as int == (-(below as int) - 1) * d as int + (d as int - 1 - r))
                by (nonlinear_arith)
                requires
                    m as int == below as int * d as int + r,
                    n as int == -(m as int) - 1,
            ;
            lemma_fundamental_div_mod_converse(
                n as int,
                d as int,
                -(below as int) - 1,
                d as int - 1 - r,
            );
        }
        -below - 1
    }
}

/// The saturated quotient of two wide numbers.
pub(crate) fn wide_ratio(n: i128, d: i128) -> (r: i64)
    requires
        -WIDE_LIMIT <= n <= WIDE_LIMIT,
        -WIDE_LIMIT <= d <= WIDE_LIMIT,
    ensures
        r == ratio(n as int, d as int),
{
    if d == 0 {
        if n > 0 {
            i64::MAX
        } else if n < 0 {
            i64::MIN
        } else {
            0
        }
    } else if d > 0 {
        saturate_wide(wide_floor_quotient(n, d))
    } else {
        saturate_wide(wide_floor_quotient(-n, -d))
    }
}

/// The exact product of two raw values.
pub(crate) fn wide_product(a: i64, b: i64) -> (p: i128)
    ensures
        p == a as int * b as int,
        -WIDE_LIMIT <= p <= WIDE_LIMIT,
{
    proof {
        assert(-0x4000_0000_0000_0000_0000_0000_0000_0000 <= a as int * b as int
            <= 0x4000_0000_0000_0000_0000_0000_0000_0000) by (nonlinear_arith)
            requires
                -0x8000_0000_0000_0000 <= a as int <= 0x8000_0000_0000_0000,
                -0x8000_0000_0000_0000 <= b as int <= 0x8000_0000_0000_0000,
        ;
    }
    let wide_a: i128 = a as i128;
    let wide_b: i128 = b as i128;
    wide_a * wide_b
}

/// The integer square root of a wide number, by bisection.
pub(crate) fn wide_isqrt(n: u128) -> (r: u64)
    ensures
        r == isqrt(n as int),
        is_root_of(r as int, n as int),
{
    let mut low: u128 = 0;
    let mut high: u128 = 0x1_0000_0000_0000_0000;
    proof {
        assert(0x1_0000_0000_0000_0000int * 0x1_0000_0000_0000_0000int
            == 0x1_0000_0000_0000_0000_0000_0000_0000_0000int) by (nonlinear_arith);
    }
    while high - low > 1
        invariant
            low < high <= 0x1_0000_0000_0000_0000,
            low * low <= n,
            n < high * high,
        decreases high - low,
    {
        let middle: u128 = low + (high - low) / 2;
        proof {
            assert(middle * middle <= 0xffff_ffff_ffff_ffff * 0xffff_ffff_ffff_ffff)
                by (nonlinear_arith)
                requires
                    0 <= middle <= 0xffff_ffff_ffff_ffff,
            ;
            assert(0xffff_ffff_ffff_ffffint * 0xffff_ffff_ffff_ffffint
                < 0x1_0000_0000_0000_0000_0000_0000_0000_0000int) by (nonlinear_arith);
        }
        if middle * middle <= n {
            low = middle;
        } else {
            high = middle;
        }
    }
    proof {
        assert(high == low + 1);
        lemma_isqrt_is(low as int, n as int);
    }
    low as u64
}

/// A fixed-point number: `raw` counts units of 2^-32.
#[derive(Clone, Copy, Debug, PartialEq, Eq, Structural)]
pub struct Scalar {
    pub raw: i64,
}

impl Scalar {
    /// The scalar with the given raw representation.
    pub open spec fn spec_from_raw(raw: i64) -> Scalar {
        Scalar { raw }
    }

    /// The scalar with the given raw representation.
    #[verifier::when_used_as_spec(spec_from_raw)]
    pub fn from_raw(raw: i64) -> (r: Scalar)
        ensures
            r == Scalar::spec_from_raw(raw),
    {
        Scalar { raw }
    }

    /// The scalar that stands for the whole number `n`.
    pub open spec fn spec_from_int(n: i32) -> Scalar {
        Scalar { raw: (n as int * ONE_RAW as int) as i64 }
    }

    /// The scalar that stands for the whole number `n`.
    #[verifier::when_used_as_spec(spec_from_int)]
    pub fn from_int(n: i32) -> (r: Scalar)
        ensures
            r == Scalar::spec_from_int(n),
            r.raw as int == n as int * ONE_RAW as int,
    {
        let wide: i64 = n as i64;
        Scalar { raw: wide * ONE_RAW }
    }

    /// Zero.
    pub open spec fn spec_zero() -> Scalar {
        Scalar { raw: 0 }
    }

    /// Zero.
    #[verifier::when_used_as_spec(spec_zero)]
    pub fn zero() -> (r: Scalar)
        ensures
            r == Scalar::spec_zero(),
    {
        Scalar { raw: 0 }
    }

    /// One.
    pub open spec fn spec_one() -> Scalar {
        Scalar { raw: ONE_RAW }
    }

    /// One.
    #[verifier::when_used_as_spec(spec_one)]
    pub fn one() -> (r: Scalar)
        ensures
            r == Scalar::spec_one(),
    {
        Scalar { raw: ONE_RAW }
    }

    /// The saturated sum.
    pub open spec fn spec_add(self, rhs: Scalar) -> Scalar {
        Scalar { raw: saturate(self.raw + rhs.raw) }
    }

    /// The saturated sum.
    #[verifier::when_used_as_spec(spec_add)]
    pub fn add(self, rhs: Scalar) -> (r: Scalar)
        ensures
            r == self.spec_add(rhs),
    {
        let wide_l: i128 = self.raw as i128;
        let wide_r: i128 = rhs.raw as i128;
        Scalar { raw: saturate_wide(wide_l + wide_r) }
    }

    /// The saturated difference.
    pub open spec fn spec_sub(self, rhs: Scalar) -> Scalar {
        Scalar { raw: saturate(self.raw - rhs.raw) }
    }

    /// The saturated difference.
    #[verifier::when_used_as_spec(spec_sub)]
    pub fn sub(self, rhs: Scalar) -> (r: Scalar)
        ensures
            r == self.spec_sub(rhs),
    {
        let wide_l: i128 = self.raw as i128;
        let wide_r: i128 = rhs.raw as i128;
        Scalar { raw: saturate_wide(wide_l - wide_r) }
    }

    /// The saturated negation.
    pub open spec fn spec_neg(self) -> Scalar {
        Scalar { raw: saturate(-self.raw) }
    }

    /// The saturated negation.
    #[verifier::when_used_as_spec(spec_neg)]
    pub fn neg(self) -> (r: Scalar)
        ensures
            r == self.spec_neg(),
    {
        let wide: i128 = self.raw as i128;
        Scalar { raw: saturate_wide(-wide) }
    }

    /// Twice the scalar, saturated.
    pub open spec fn spec_double(self) -> Scalar {
        Scalar { raw: saturate(2 * self.raw) }
    }

    /// Twice the scalar, saturated.
    #[verifier::when_used_as_spec(spec_double)]
    pub fn double(self) -> (r: Scalar)
        ensures
            r == self.spec_double(),
    {
        let wide: i128 = self.raw as i128;
        Scalar { raw: saturate_wide(2 * wide) }
    }

    /// The product, rounded down to a raw unit and saturated.
    pub open spec fn spec_mul(self, rhs: Scalar) -> Scalar {
        Scalar { raw: ratio(self.raw * rhs.raw, ONE_RAW as int) }
    }

    /// The product, rounded down to a raw unit and saturated.
    #[verifier::when_used_as_spec(spec_mul)]
    pub fn mul(self, rhs: Scalar) -> (r: Scalar)
        ensures
            r == self.spec_mul(rhs),
    {
        let wide_one: i128 = ONE_RAW as i128;
        Scalar { raw: wide_ratio(wide_product(self.raw, rhs.raw), wide_one) }
    }

    /// The quotient, rounded down to a raw unit and saturated. Division by
    /// zero saturates on the side of the dividend; zero by zero is zero.
    pub open spec fn spec_div(self, rhs: Scalar) -> Scalar {
        Scalar { raw: ratio(self.raw * ONE_RAW, rhs.raw as int) }
    }

    /// The quotient, rounded down to a raw unit and saturated. Division by
    /// zero saturates on the side of the dividend; zero by zero is zero.
    #[verifier::when_used_as_spec(spec_div)]
    pub fn div(self, rhs: Scalar) -> (r: Scalar)
        ensures
            r == self.spec_div(rhs),
    {
        let wide_d: i128 = rhs.raw as i128;
        Scalar { raw: wide_ratio(wide_product(self.raw, ONE_RAW), wide_d) }
    }

    /// `self * numerator / denominator` with a single rounding at the end.
    pub open spec fn spec_mul_div(self, numerator: Scalar, denominator: Scalar) -> Scalar {
        Scalar { raw: ratio(self.raw * numerator.raw, denominator.raw as int) }
    }

    /// `self * numerator / denominator` with a single rounding at the end.
    #[verifier::when_used_as_spec(spec_mul_div)]
    pub fn mul_div(self, numerator: Scalar, denominator: Scalar) -> (r: Scalar)
        ensures
            r == self.spec_mul_div(numerator, denominator),
    {
        let wide_d: i128 = denominator.raw as i128;
        Scalar { raw: wide_ratio(wide_product(self.raw, numerator.raw), wide_d) }
    }

    /// The square root, rounded down to a raw unit; zero for a negative scalar.
    pub open spec fn spec_sqrt(self) -> Scalar {
        Scalar { raw: isqrt(self.raw * ONE_RAW) as i64 }
    }

    /// The square root, rounded down to a raw unit; zero for a negative scalar.
    #[verifier::when_used_as_spec(spec_sqrt)]
    pub fn sqrt(self) -> (r: Scalar)
        ensures
            r == self.spec_sqrt(),
            r.raw >= 0,
            self.raw > 0 ==> is_root_of(r.raw as int, self.raw * ONE_RAW),
    {
        if self.raw <= 0 {
            proof {
                assert(self.raw * ONE_RAW <= 0) by (nonlinear_arith)
                    requires
                        self.raw <= 0,
                        ONE_RAW > 0,
                ;
            }
            Scalar { raw: 0 }
        } else {
            let wide: u128 = wide_product(self.raw, ONE_RAW) as u128;
            let root: u64 = wide_isqrt(wide);
            proof {
                assert(self.raw * ONE_RAW < 0x1_0000_0000_0000 * 0x1_0000_0000_0000)
                    by (nonlinear_arith)
                    requires
                        0 < self.raw <= 0x7fff_ffff_ffff_ffff,
                        ONE_RAW == 0x1_0000_0000,
                ;
                if root >= 0x1_0000_0000_0000 {
                    assert(root * root >= 0x1_0000_0000_0000 * 0x1_0000_0000_0000)
                        by (nonlinear_arith)
                        requires
                            root >= 0x1_0000_0000_0000,
                    ;
                }
            }
            Scalar { raw: root as i64 }
        }
    }

    /// `self < rhs`.
    pub open spec fn spec_lt(self, rhs: Scalar) -> bool {
        self.raw < rhs.raw
    }

    /// `self < rhs`.
    #[verifier::when_used_as_spec(spec_lt)]
    pub fn lt(self, rhs: Scalar) -> (r: bool)
        ensures
            r == self.spec_lt(rhs),
    {
        self.raw < rhs.raw
    }

    /// `self > 0`.
    pub open spec fn spec_is_positive(self) -> bool {
        self.raw > 0
    }

    /// `self > 0`.
    #[verifier::when_used_as_spec(spec_is_positive)]
    pub fn is_positive(self) -> (r: bool)
        ensures
            r == self.spec_is_positive(),
    {
        self.raw > 0
    }
}

/// An exact quotient is not rounded: `q * d / d` is `q`, saturated.
pub proof fn lemma_ratio_of_multiple(q: int, d: int)
    requires
        d != 0,
    ensures
        ratio(q * d, d) == saturate(q),
{
    if d > 0 {
        lemma_fundamental_div_mod_converse(q * d, d, q, 0);
    } else {
        assert(-(q * d) == q * (-d)) by (nonlinear_arith);
        lemma_fundamental_div_mod_converse(q * (-d), -d, q, 0);
    }
}

/// Zero divided by anything is zero.
pub proof fn lemma_ratio_of_zero(d: int)
    ensures
        ratio(0, d) == 0,
{
    if d != 0 {
        assert(0 * d == 0);
        lemma_ratio_of_multiple(0, d);
    }
}

/// A quotient by a positive number lies between the bounds of its dividend:
/// `d * (n / d) <= n < d * (n / d) + d`.
pub proof fn lemma_floor_quotient_bounds(n: int, d: int)
    requires
        d > 0,
    ensures
        d * (n / d) <= n < d * (n / d) + d,
{
    vstd::arithmetic::div_mod::lemma_fundamental_div_mod(n, d);
    vstd::arithmetic::div_mod::lemma_mod_bound(n, d);
}

impl Scalar {
    /// Multiplying by a whole number `k` is exact: it gives `k` times the raw
    /// value, saturated, on either side.
    pub proof fn lemma_mul_by_whole(self, k: int, whole: Scalar)
        requires
            whole.raw == k * ONE_RAW,
        ensures
            self.mul(whole).raw == saturate(self.raw * k),
            whole.mul(self).raw == saturate(self.raw * k),
    {
        assert(self.raw * whole.raw == (self.raw * k) * ONE_RAW) by (nonlinear_arith)
            requires
                whole.raw == k * ONE_RAW,
        ;
        assert(whole.raw * self.raw == (self.raw * k) * ONE_RAW) by (nonlinear_arith)
            requires
                whole.raw == k * ONE_RAW,
        ;
        lemma_ratio_of_multiple(self.raw * k, ONE_RAW as int);
    }

    /// Zero times anything is zero, and anything times one is itself.
    pub proof fn lemma_mul_zero_one(self)
        ensures
            self.mul(Scalar::zero()) == Scalar::zero(),
            Scalar::zero().mul(self) == Scalar::zero(),
            self.mul(Scalar::one()) == self,
            Scalar::one().mul(self) == self,
    {
        self.lemma_mul_by_whole(0, Scalar::zero());
        self.lemma_mul_by_whole(1, Scalar::one());
        assert(self.raw * 0 == 0) by (nonlinear_arith);
        assert(self.raw * 1 == self.raw) by (nonlinear_arith);
    }

    /// Zero divided by anything is zero.
    pub proof fn lemma_zero_div(self)
        ensures
            Scalar::zero().div(self) == Scalar::zero(),
            Scalar::zero().mul_div(self, self) == Scalar::zero(),
    {
        assert(0 * ONE_RAW == 0);
        assert(0 * self.raw == 0) by (nonlinear_arith);
        if self.raw != 0 {
            assert(0 == 0 * self.raw) by (nonlinear_arith);
            lemma_ratio_of_multiple(0, self.raw as int);
        }
    }
}

} // verus!
