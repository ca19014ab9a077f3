//! Saturating fixed-point numbers.
//!
//! A [`Scalar`] counts billionths: the raw value `ONE_RAW` is the number one.
//! Every operation is total. A result that would leave the range is held at
//! the nearest end of it, so the two ends behave as plus and minus infinity,
//! and a quotient or product is rounded toward zero. The range is symmetric
//! about zero, which makes negation exact.

use vstd::prelude::*;

verus! {

/// Raw units in the number one.
pub const ONE_RAW: i64 = 1_000_000_000;

/// Largest raw magnitude; the range of a scalar is `-MAX_RAW ..= MAX_RAW`.
pub const MAX_RAW: i64 = 9_223_372_036_854_775_807;

/// The value in range that is nearest to `v`.
pub open spec fn clamp(v: int) -> int {
    if v > MAX_RAW {
        MAX_RAW as int
    } else if v < -MAX_RAW {
        -MAX_RAW
    } else {
        v
    }
}

/// Distance of `v` from zero.
pub open spec fn magnitude(v: int) -> int {
    if v < 0 {
        -v
    } else {
        v
    }
}

/// The quotient of `n` by `d`, rounded toward zero (`d` is not zero).
pub open spec fn quot(n: int, d: int) -> int {
    let q = magnitude(n) / magnitude(d);
    if (n < 0) == (d < 0) {
        q
    } else {
        -q
    }
}

/// `r` is the largest integer whose square does not exceed `n`.
pub open spec fn is_floor_sqrt(n: int, r: int) -> bool {
    0 <= r && r * r <= n < (r + 1) * (r + 1)
}

/// The integer square root of `n`, rounded down (`n` is not negative).
pub open spec fn floor_sqrt(n: int) -> int {
    choose|r: int| is_floor_sqrt(n, r)
}

/// Every number from zero up has an integer square root.
pub proof fn lemma_floor_sqrt_exists(n: int)
    requires
        n >= 0,
    ensures
        is_floor_sqrt(n, floor_sqrt(n)),
    decreases n,
{
    if n == 0 {
        assert(is_floor_sqrt(0, 0));
    } else {
        lemma_floor_sqrt_exists(n - 1);
        let r = floor_sqrt(n - 1);
        if (r + 1) * (r + 1) <= n {
            assert((r + 2) * (r + 2) > (r + 1) * (r + 1)) by (nonlinear_arith)
                requires
                    r >= 0,
            ;
            assert(is_floor_sqrt(n, r + 1));
        } else {
            assert(is_floor_sqrt(n, r));
        }
    }
}

/// The integer square root is the only number that meets `is_floor_sqrt`.
pub proof fn lemma_floor_sqrt_unique(n: int, r: int)
    requires
        is_floor_sqrt(n, r),
    ensures
        r == floor_sqrt(n),
{
    let s = floor_sqrt(n);
    assert(is_floor_sqrt(n, s));
    assert(r == s) by (nonlinear_arith)
        requires
            0 <= r,
            0 <= s,
            r * r <= n,
            n < (r + 1) * (r + 1),
            s * s <= n,
            n < (s + 1) * (s + 1),
    ;
}

/// Sum of two raw values, held in range.
pub open spec fn add_units(a: int, b: int) -> int {
    clamp(a + b)
}

/// Difference of two raw values, held in range.
pub open spec fn sub_units(a: int, b: int) -> int {
    clamp(a - b)
}

/// Raw value of the product of the numbers with raw values `a` and `b`.
pub open spec fn mul_units(a: int, b: int) -> int {
    clamp(quot(a * b, ONE_RAW as int))
}

/// Raw value of the quotient of the numbers with raw values `a` and `b`.
/// Division by zero gives the end of the range on the side of `a`, and zero
/// for zero by zero.
pub open spec fn div_units(a: int, b: int) -> int {
    if b == 0 {
        if a > 0 {
            MAX_RAW as int
        } else if a < 0 {
            -MAX_RAW
        } else {
            0
        }
    } else {
        clamp(quot(a * ONE_RAW, b))
    }
}

/// Raw value of the square root of the number with raw value `a`, rounded
/// down; zero where `a` is negative.
pub open spec fn sqrt_units(a: int) -> int {
    if a <= 0 {
        0
    } else {
        floor_sqrt(a * ONE_RAW)
    }
}

/// A fixed-point number with nine decimal places.
#[derive(Clone, Copy, Debug, PartialEq, Eq, Structural)]
pub struct Scalar {
    /// Count of billionths. The lowest value of `i64` stands for `-MAX_RAW`.
    pub raw: i64,
}

impl View for Scalar {
    type V = int;

    /// The raw value, always within `-MAX_RAW ..= MAX_RAW`.
    open spec fn view(&self) -> int {
        if self.raw == i64::MIN {
            -MAX_RAW
        } else {
            self.raw as int
        }
    }
}

impl Scalar {
    /// The scalar whose raw value is `v` held in range.
    pub open spec fn of(v: int) -> Scalar {
        Scalar { raw: clamp(v) as i64 }
    }

    /// The sum, held in range.
    pub open spec fn plus(self, rhs: Scalar) -> Scalar {
        Scalar::of(add_units(self@, rhs@))
    }

    /// The difference, held in range.
    pub open spec fn minus(self, rhs: Scalar) -> Scalar {
        Scalar::of(sub_units(self@, rhs@))
    }

    /// The product, rounded toward zero and held in range.
    pub open spec fn times(self, rhs: Scalar) -> Scalar {
        Scalar::of(mul_units(self@, rhs@))
    }

    /// The quotient, rounded toward zero and held in range.
    pub open spec fn over(self, rhs: Scalar) -> Scalar {
        Scalar::of(div_units(self@, rhs@))
    }

    /// The opposite number.
    pub open spec fn negated(self) -> Scalar {
        Scalar::of(-self@)
    }

    /// The square root, rounded down; zero for a negative number.
    pub open spec fn sqrt_spec(self) -> Scalar {
        Scalar::of(sqrt_units(self@))
    }

    /// `self` held between `low` and `high`; below `low` it is `low`, whatever
    /// `high` is.
    pub open spec fn clamp_spec(self, low: Scalar, high: Scalar) -> Scalar {
        if self@ < low@ {
            Scalar::of(low@)
        } else if self@ > high@ {
            Scalar::of(high@)
        } else {
            Scalar::of(self@)
        }
    }

    /// The distance of the number from zero.
    pub open spec fn abs_spec(self) -> Scalar {
        Scalar::of(magnitude(self@))
    }

    /// The larger of the two numbers.
    pub open spec fn max_spec(self, other: Scalar) -> Scalar {
        if self@ >= other@ {
            Scalar::of(self@)
        } else {
            Scalar::of(other@)
        }
    }

    /// The whole part of the number, rounded toward zero.
    pub open spec fn whole_spec(self) -> int {
        quot(self@, ONE_RAW as int)
    }

    /// The scalar of `raw` billionths.
    pub fn from_raw(raw: i64) -> (r: Scalar)
        ensures
            r == Scalar::of(raw as int),
    {
        if raw == i64::MIN {
            Scalar { raw: -MAX_RAW }
        } else {
            Scalar { raw }
        }
    }

    /// The whole number `n`.
    pub fn from_int(n: i64) -> (r: Scalar)
        ensures
            r == Scalar::of(n * ONE_RAW),
    {
        assert(-0x8000_0000_0000_0000 * 1_000_000_000 <= n * ONE_RAW <= 0x8000_0000_0000_0000
            * 1_000_000_000) by (nonlinear_arith)
            requires
                -0x8000_0000_0000_0000 <= n <= 0x8000_0000_0000_0000,
                ONE_RAW == 1_000_000_000,
        ;
        saturate((n as i128) * (ONE_RAW as i128))
    }

    /// The whole number `n`, held in range.
    pub fn from_usize(n: usize) -> (r: Scalar)
        ensures
            r == Scalar::of(n * ONE_RAW),
    {
        let wide: u64 = n as u64;
        if wide > 0x7fff_ffff_ffff_ffff {
            assert(n * ONE_RAW > MAX_RAW) by (nonlinear_arith)
                requires
                    n > 0x7fff_ffff_ffff_ffff,
                    ONE_RAW == 1_000_000_000,
                    MAX_RAW == 0x7fff_ffff_ffff_ffff,
            ;
            Scalar { raw: MAX_RAW }
        } else {
            Scalar::from_int(n as i64)
        }
    }

    /// The raw value.
    pub fn units(self) -> (u: i64)
        ensures
            u == self@,
    {
        if self.raw == i64::MIN {
            -MAX_RAW
        } else {
            self.raw
        }
    }

    /// The number zero.
    pub fn zero() -> (r: Scalar)
        ensures
            r == Scalar::of(0),
    {
        Scalar { raw: 0 }
    }

    /// The number one.
    pub fn one() -> (r: Scalar)
        ensures
            r == Scalar::of(ONE_RAW as int),
    {
        Scalar { raw: ONE_RAW }
    }

    /// The upper end of the range, which stands for infinity.
    pub fn infinity() -> (r: Scalar)
        ensures
            r == Scalar::of(MAX_RAW as int),
    {
        Scalar { raw: MAX_RAW }
    }

    /// Square root, rounded down to the next billionth. The root of a negative
    /// number is zero.
    pub fn sqrt(self) -> (r: Scalar)
        ensures
            r == self.sqrt_spec(),
    {
        let a: i64 = self.units();
        if a <= 0 {
            Scalar { raw: 0 }
        } else {
            let n: u128 = (a as u128) * (ONE_RAW as u128);
            let root: u64 = integer_sqrt(n);
            proof {
                lemma_floor_sqrt_unique(n as int, root as int);
            }
            Scalar { raw: root as i64 }
        }
    }

    /// `self` where it lies between `low` and `high`, else the bound that it
    /// passed, `low` first.
    pub fn clamp(self, low: Scalar, high: Scalar) -> (r: Scalar)
        ensures
            r == self.clamp_spec(low, high),
    {
        let a: i64 = self.units();
        if a < low.units() {
            Scalar { raw: low.units() }
        } else if a > high.units() {
            Scalar { raw: high.units() }
        } else {
            Scalar { raw: a }
        }
    }

    /// The distance of the number from zero.
    pub fn abs(self) -> (r: Scalar)
        ensures
            r == self.abs_spec(),
    {
        let a: i64 = self.units();
        if a < 0 {
            Scalar { raw: -a }
        } else {
            Scalar { raw: a }
        }
    }

    /// The larger of the two numbers.
    pub fn max(self, other: Scalar) -> (r: Scalar)
        ensures
            r == self.max_spec(other),
    {
        if self.units() >= other.units() {
            Scalar { raw: self.units() }
        } else {
            Scalar { raw: other.units() }
        }
    }

    /// The whole part of the number, rounded toward zero.
    pub fn whole(self) -> (w: i64)
        ensures
            w == self.whole_spec(),
    {
        self.units() / ONE_RAW
    }
}

/// The scalar nearest to the raw value `v`.
fn saturate(v: i128) -> (r: Scalar)
    ensures
        r == Scalar::of(v as int),
{
    if v > MAX_RAW as i128 {
        Scalar { raw: MAX_RAW }
    } else if v < -(MAX_RAW as i128) {
        Scalar { raw: -MAX_RAW }
    } else {
        Scalar { raw: v as i64 }
    }
}

/// Distance of `v` from zero.
fn distance(v: i64) -> (d: u128)
    ensures
        d == magnitude(v as int),
{
    if v < 0 {
        (-(v as i128)) as u128
    } else {
        v as u128
    }
}

/// Integer square root by bisection.
fn integer_sqrt(n: u128) -> (r: u64)
    requires
        n < 0x4000_0000_0000_0000_0000_0000,
    ensures
        is_floor_sqrt(n as int, r as int),
        r < 0x8000_0000_0000,
{
    let mut low: u128 = 0;
    let mut high: u128 = 0x8000_0000_0000;
    assert(0x8000_0000_0000u128 * 0x8000_0000_0000u128 == 0x4000_0000_0000_0000_0000_0000u128);
    while high - low > 1
        invariant
            low < high <= 0x8000_0000_0000,
            low * low <= n < high * high,
        decreases high - low,
    {
        let mid: u128 = low + (high - low) / 2;
        assert(mid * mid < 0x4000_0000_0000_0000_0000_0000) by (nonlinear_arith)
            requires
                mid < 0x8000_0000_0000,
        ;
        if mid * mid <= n {
            low = mid;
        } else {
            high = mid;
        }
    }
    low as u64
}

impl core::ops::Add for Scalar {
    type Output = Scalar;

    fn add(self, rhs: Scalar) -> (r: Scalar) {
        saturate(self.units() as i128 + rhs.units() as i128)
    }
}

impl vstd::std_specs::ops::AddSpecImpl for Scalar {
    open spec fn obeys_add_spec() -> bool {
        true
    }

    open spec fn add_req(self, rhs: Scalar) -> bool {
        true
    }

    open spec fn add_spec(self, rhs: Scalar) -> Scalar {
        self.plus(rhs)
    }
}

impl core::ops::Sub for Scalar {
    type Output = Scalar;

    fn sub(self, rhs: Scalar) -> (r: Scalar) {
        saturate(self.units() as i128 - rhs.units() as i128)
    }
}

impl vstd::std_specs::ops::SubSpecImpl for Scalar {
    open spec fn obeys_sub_spec() -> bool {
        true
    }

    open spec fn sub_req(self, rhs: Scalar) -> bool {
        true
    }

    open spec fn sub_spec(self, rhs: Scalar) -> Scalar {
        self.minus(rhs)
    }
}

impl core::ops::Neg for Scalar {
    type Output = Scalar;

    fn neg(self) -> (r: Scalar) {
        Scalar { raw: -self.units() }
    }
}

impl vstd::std_specs::ops::NegSpecImpl for Scalar {
    open spec fn obeys_neg_spec() -> bool {
        true
    }

    open spec fn neg_req(self) -> bool {
        true
    }

    open spec fn neg_spec(self) -> Scalar {
        self.negated()
    }
}

impl core::ops::Mul for Scalar {
    type Output = Scalar;

    fn mul(self, rhs: Scalar) -> (r: Scalar) {
        let a: i128 = self.units() as i128;
        let b: i128 = rhs.units() as i128;
        assert(-0x4000_0000_0000_0000_0000_0000_0000_0000 <= a * b
            <= 0x4000_0000_0000_0000_0000_0000_0000_0000) by (nonlinear_arith)
            requires
                -0x8000_0000_0000_0000 <= a <= 0x8000_0000_0000_0000,
                -0x8000_0000_0000_0000 <= b <= 0x8000_0000_0000_0000,
        ;
        saturate((a * b) / (ONE_RAW as i128))
    }
}

impl vstd::std_specs::ops::MulSpecImpl for Scalar {
    open spec fn obeys_mul_spec() -> bool {
        true
    }

    open spec fn mul_req(self, rhs: Scalar) -> bool {
        true
    }

    open spec fn mul_spec(self, rhs: Scalar) -> Scalar {
        self.times(rhs)
    }
}

impl core::ops::Div for Scalar {
    type Output = Scalar;

    fn div(self, rhs: Scalar) -> (r: Scalar) {
        let a: i64 = self.units();
        let b: i64 = rhs.units();
        if b == 0 {
            if a > 0 {
                Scalar { raw: MAX_RAW }
            } else if a < 0 {
                Scalar { raw: -MAX_RAW }
            } else {
                Scalar { raw: 0 }
            }
        } else {
            let n: u128 = distance(a) * (ONE_RAW as u128);
            let d: u128 = distance(b);
            let q: u128 = n / d;
            assert(magnitude(a * ONE_RAW) == n) by (nonlinear_arith)
                requires
                    n == magnitude(a as int) * ONE_RAW,
                    ONE_RAW > 0,
            ;
            assert((a * ONE_RAW < 0) == (a < 0)) by (nonlinear_arith)
                requires
                    ONE_RAW > 0,
            ;
            if (a < 0) == (b < 0) {
                saturate(q as i128)
            } else {
                saturate(-(q as i128))
            }
        }
    }
}

impl vstd::std_specs::ops::DivSpecImpl for Scalar {
    open spec fn obeys_div_spec() -> bool {
        true
    }

    open spec fn div_req(self, rhs: Scalar) -> bool {
        true
    }

    open spec fn div_spec(self, rhs: Scalar) -> Scalar {
        self.over(rhs)
    }
}

/// A product with zero is zero.
pub proof fn lemma_mul_units_zero(a: int)
    ensures
        mul_units(a, 0) == 0,
        mul_units(0, a) == 0,
{
    assert(a * 0 == 0 && 0 * a == 0) by (nonlinear_arith);
    assert(0int / (ONE_RAW as int) == 0);
}

/// Rounding toward zero keeps the order of the numerators.
pub proof fn lemma_quot_ordered(n1: int, n2: int, d: int)
    requires
        n1 <= n2,
        d > 0,
    ensures
        quot(n1, d) <= quot(n2, d),
{
    if n1 >= 0 {
        vstd::arithmetic::div_mod::lemma_div_is_ordered(n1, n2, d);
    } else if n2 >= 0 {
        vstd::arithmetic::div_mod::lemma_div_pos_is_pos(-n1, d);
        vstd::arithmetic::div_mod::lemma_div_pos_is_pos(n2, d);
    } else {
        vstd::arithmetic::div_mod::lemma_div_is_ordered(-n2, -n1, d);
    }
}

/// A quotient by a divisor that is not negative keeps the order of the
/// dividends.
pub proof fn lemma_div_units_ordered(a1: int, a2: int, b: int)
    requires
        a1 <= a2,
        b >= 0,
    ensures
        div_units(a1, b) <= div_units(a2, b),
{
    if b > 0 {
        assert(a1 * ONE_RAW <= a2 * ONE_RAW) by (nonlinear_arith)
            requires
                a1 <= a2,
                ONE_RAW > 0,
        ;
        lemma_quot_ordered(a1 * ONE_RAW, a2 * ONE_RAW, b);
    }
}

/// A square is not negative.
pub proof fn lemma_mul_units_square(a: int)
    ensures
        mul_units(a, a) >= 0,
{
    assert(a * a >= 0) by (nonlinear_arith);
    vstd::arithmetic::div_mod::lemma_div_pos_is_pos(a * a, ONE_RAW as int);
}

/// A square root is not negative.
pub proof fn lemma_sqrt_units_sign(a: int)
    ensures
        sqrt_units(a) >= 0,
{
    if a > 0 {
        assert(a * ONE_RAW >= 0) by (nonlinear_arith)
            requires
                a > 0,
                ONE_RAW > 0,
        ;
        lemma_floor_sqrt_exists(a * ONE_RAW);
    }
}

/// The product changes its sign, and nothing else, where one factor does.
pub proof fn lemma_mul_units_odd(a: int, b: int)
    ensures
        mul_units(a, -b) == -mul_units(a, b),
        mul_units(-a, b) == -mul_units(a, b),
{
    assert(a * (-b) == -(a * b) && (-a) * b == -(a * b)) by (nonlinear_arith);
}

/// A quotient by a divisor that is no smaller than the dividend's magnitude
/// lies between minus one and one.
pub proof fn lemma_div_units_bounded(a: int, b: int)
    requires
        magnitude(a) <= b,
    ensures
        -ONE_RAW <= div_units(a, b) <= ONE_RAW,
{
    if b > 0 {
        let one = ONE_RAW as int;
        let m = magnitude(a);
        assert(magnitude(a * one) == m * one) by (nonlinear_arith)
            requires
                m == magnitude(a),
                one > 0,
        ;
        assert(0 <= m * one <= one * b) by (nonlinear_arith)
            requires
                0 <= m <= b,
                one > 0,
        ;
        vstd::arithmetic::div_mod::lemma_div_pos_is_pos(m * one, b);
        vstd::arithmetic::div_mod::lemma_div_is_ordered(m * one, one * b, b);
        vstd::arithmetic::div_mod::lemma_div_by_multiple(one, b);
    }
}

/// The product with one is the number itself.
pub proof fn lemma_mul_units_one(a: int)
    requires
        -MAX_RAW <= a <= MAX_RAW,
    ensures
        mul_units(ONE_RAW as int, a) == a,
        mul_units(a, ONE_RAW as int) == a,
{
    let one = ONE_RAW as int;
    let m = magnitude(a);
    assert(magnitude(one * a) == m * one && magnitude(a * one) == m * one) by (nonlinear_arith)
        requires
            m == magnitude(a),
            one > 0,
    ;
    assert((one * a < 0) == (a < 0) && (a * one < 0) == (a < 0)) by (nonlinear_arith)
        requires
            one > 0,
    ;
    vstd::arithmetic::div_mod::lemma_div_by_multiple(m, one);
}

/// The product of a number from zero to one with a number from zero to
/// `bound` lies from zero to `bound`.
pub proof fn lemma_mul_units_fraction(f: int, t: int, bound: int)
    requires
        0 <= f <= ONE_RAW,
        0 <= t <= bound,
    ensures
        0 <= mul_units(f, t) <= bound,
        0 <= mul_units(t, f) <= bound,
{
    let one = ONE_RAW as int;
    assert(0 <= f * t <= bound * one && f * t == t * f) by (nonlinear_arith)
        requires
            0 <= f <= one,
            0 <= t <= bound,
    ;
    vstd::arithmetic::div_mod::lemma_div_pos_is_pos(f * t, one);
    vstd::arithmetic::div_mod::lemma_div_is_ordered(f * t, bound * one, one);
    vstd::arithmetic::div_mod::lemma_div_by_multiple(bound, one);
}

/// The product of a number from zero up with a half is at most half of it.
pub proof fn lemma_mul_units_half(t: int)
    requires
        0 <= t,
    ensures
        0 <= mul_units(t, 500_000_000),
        2 * mul_units(t, 500_000_000) <= t,
        mul_units(500_000_000, t) == mul_units(t, 500_000_000),
{
    let one = ONE_RAW as int;
    let product = t * 500_000_000;
    assert(product >= 0 && product == 500_000_000 * t) by (nonlinear_arith)
        requires
            t >= 0,
            product == t * 500_000_000,
    ;
    vstd::arithmetic::div_mod::lemma_div_pos_is_pos(product, one);
    vstd::arithmetic::div_mod::lemma_fundamental_div_mod(product, one);
    vstd::arithmetic::div_mod::lemma_mod_bound(product, one);
    let q = product / one;
    assert(2 * q <= t) by (nonlinear_arith)
        requires
            product == one * q + product % one,
            0 <= product % one,
            product == t * 500_000_000,
            one == 1_000_000_000,
    ;
}

/// The product of scalars changes its sign, and nothing else, where one
/// factor is replaced by its opposite.
pub proof fn lemma_times_negated(a: Scalar, b: Scalar)
    ensures
        a.times(b.negated())@ == -a.times(b)@,
        a.negated().times(b)@ == -a.times(b)@,
{
    lemma_mul_units_odd(a@, b@);
}

/// The sum of two opposites is the opposite of the sum.
pub proof fn lemma_plus_opposites(a: Scalar, b: Scalar, c: Scalar, d: Scalar)
    requires
        c@ == -a@,
        d@ == -b@,
    ensures
        c.plus(d)@ == -a.plus(b)@,
{
}

} // verus!
