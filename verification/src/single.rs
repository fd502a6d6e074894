//! [`Single`]: an IEEE single-precision number, carried as its bits.
//!
//! The library compares, clamps and classifies such numbers, all of which can be done exactly on
//! the bits. It never adds or multiplies them.

use vstd::prelude::*;
use vstd::arithmetic::power2::pow2;

verus! {

/// The sign bit.
pub const SIGN: u32 = 0x8000_0000;

/// Positive infinity. Magnitudes above it are NaN.
pub const INFINITY: u32 = 0x7f80_0000;

/// Negative infinity.
pub const NEG_INFINITY: u32 = 0xff80_0000;

/// The smallest positive normal number.
pub const MIN_POSITIVE: u32 = 0x0080_0000;

/// One.
pub const ONE: u32 = 0x3f80_0000;

/// An IEEE single-precision number, by its bits.
#[derive(Clone, Copy, Debug, PartialEq, Eq, Structural)]
pub struct Single {
    pub bits: u32,
}

impl Single {
    /// The bits without the sign.
    pub open spec fn magnitude(self) -> int {
        if self.bits < SIGN {
            self.bits as int
        } else {
            self.bits - SIGN
        }
    }

    /// Whether the number is not a number.
    pub open spec fn nan(self) -> bool {
        self.magnitude() > INFINITY
    }

    /// The place of the number in the order of all numbers that are not NaN. Both zeros are at 0.
    pub open spec fn key(self) -> int {
        if self.bits < SIGN {
            self.magnitude()
        } else {
            -self.magnitude()
        }
    }

    /// `2^149` times the absolute value of the number: a whole number for every finite one.
    pub open spec fn scaled_magnitude(self) -> int {
        let exponent = self.magnitude() / 0x80_0000;
        let fraction = self.magnitude() % 0x80_0000;
        if exponent == 0 {
            fraction
        } else {
            (0x80_0000 + fraction) * pow2((exponent - 1) as nat)
        }
    }

    /// `2^149` times the number. An infinity counts as twice the largest power of two.
    pub open spec fn scaled(self) -> int {
        if self.bits < SIGN {
            self.scaled_magnitude()
        } else {
            -self.scaled_magnitude()
        }
    }

    /// `self <= other`: false as soon as one of them is NaN.
    pub open spec fn at_most(self, other: Single) -> bool {
        !self.nan() && !other.nan() && self.key() <= other.key()
    }

    /// `self < other`: false as soon as one of them is NaN.
    pub open spec fn below(self, other: Single) -> bool {
        !self.nan() && !other.nan() && self.key() < other.key()
    }

    /// The smaller of the two; a NaN gives way to the other.
    pub open spec fn smaller(self, other: Single) -> Single {
        if self.nan() || other.below(self) {
            other
        } else {
            self
        }
    }

    /// The larger of the two; a NaN gives way to the other.
    pub open spec fn larger(self, other: Single) -> Single {
        if self.nan() || self.below(other) {
            other
        } else {
            self
        }
    }

    /// The number held to `[lo, hi]`; a NaN stays a NaN.
    pub open spec fn clamped(self, lo: Single, hi: Single) -> Single {
        if self.below(lo) {
            lo
        } else if hi.below(self) {
            hi
        } else {
            self
        }
    }

    /// The number without its sign.
    pub open spec fn unsigned(self) -> Single {
        Single { bits: self.magnitude() as u32 }
    }

    /// The number, or zero where it is too small to be normal.
    pub open spec fn flushed(self) -> Single {
        if self.magnitude() < MIN_POSITIVE {
            Single { bits: 0 }
        } else {
            self
        }
    }

    /// The whole part of the number times `factor * 2^bits`. Negative numbers and NaN count as 0.
    pub open spec fn floor_times(self, factor: int, bits: nat) -> int {
        if self.nan() || self.key() <= 0 {
            0
        } else {
            self.scaled() * factor * pow2(bits) / pow2(149) as int
        }
    }

    /// The number with the given bits.
    #[verifier::allow_in_spec]
    pub fn of(bits: u32) -> (r: Single)
        returns
            (Single { bits }),
    {
        Single { bits }
    }

    /// Positive zero.
    pub fn zero() -> (r: Single)
        ensures
            r == Single::of(0),
            r.scaled() == 0,
    {
        Single { bits: 0 }
    }

    /// Whether the number is NaN.
    pub fn is_nan(self) -> (r: bool)
        ensures
            r == self.nan(),
    {
        self.abs().bits > INFINITY
    }

    /// `self <= other`, as IEEE orders numbers.
    pub fn le(self, other: Single) -> (r: bool)
        ensures
            r == self.at_most(other),
    {
        if self.is_nan() || other.is_nan() {
            return false;
        }
        let a: u32 = self.abs().bits;
        let b: u32 = other.abs().bits;
        if self.bits >= SIGN {
            if other.bits >= SIGN {
                b <= a
            } else {
                true
            }
        } else if other.bits >= SIGN {
            a == 0 && b == 0
        } else {
            a <= b
        }
    }

    /// `self < other`, as IEEE orders numbers.
    pub fn lt(self, other: Single) -> (r: bool)
        ensures
            r == self.below(other),
    {
        !self.is_nan() && !other.is_nan() && !other.le(self)
    }

    /// The smaller of two numbers, ignoring a NaN.
    pub fn min(self, other: Single) -> (r: Single)
        ensures
            r == self.smaller(other),
    {
        if self.is_nan() || other.lt(self) {
            other
        } else {
            self
        }
    }

    /// The larger of two numbers, ignoring a NaN.
    pub fn max(self, other: Single) -> (r: Single)
        ensures
            r == self.larger(other),
    {
        if self.is_nan() || self.lt(other) {
            other
        } else {
            self
        }
    }

    /// Hold the number to `[lo, hi]`. A NaN is handed back.
    pub fn clamp(self, lo: Single, hi: Single) -> (r: Single)
        requires
            lo.at_most(hi),
        ensures
            r == self.clamped(lo, hi),
            !self.nan() ==> lo.at_most(r) && r.at_most(hi),
    {
        if self.lt(lo) {
            lo
        } else if hi.lt(self) {
            hi
        } else {
            self
        }
    }

    /// The absolute value.
    pub fn abs(self) -> (r: Single)
        ensures
            r == self.unsigned(),
            r.bits == self.magnitude(),
    {
        if self.bits < SIGN {
            self
        } else {
            Single { bits: self.bits - SIGN }
        }
    }

    /// Replace a number too small to be normal by zero. Arithmetic on such numbers is slow on
    /// some processors, and a filter that rings out would stay among them for ever.
    pub fn flush_denorm(self) -> (r: Single)
        ensures
            r == self.flushed(),
            r.magnitude() == 0 || r.magnitude() >= MIN_POSITIVE,
    {
        if self.abs().bits < MIN_POSITIVE {
            Single { bits: 0 }
        } else {
            self
        }
    }

    /// The whole part of the number times `factor * 2^bits`, at most `limit`. Nothing is rounded
    /// before the whole part is taken.
    pub fn times(self, factor: u64, bits: u32, limit: u128) -> (r: u128)
        requires
            bits <= 31,
        ensures
            r == if self.floor_times(factor as int, bits as nat) < limit {
                self.floor_times(factor as int, bits as nat)
            } else {
                limit as int
            },
    {
        if self.is_nan() || self.bits >= SIGN || self.bits == 0 {
            return 0;
        }
        let exponent: u32 = self.bits / 0x80_0000;
        let fraction: u32 = self.bits % 0x80_0000;
        let (significand, power): (u128, u32) = if exponent == 0 {
            (fraction as u128, 0)
        } else {
            (0x80_0000 + fraction as u128, exponent - 1)
        };
        assert(significand * factor <= 0xff_ffff * u64::MAX) by (nonlinear_arith)
            requires
                0 <= significand <= 0xff_ffff,
                0 <= factor <= u64::MAX,
        ;
        let product: u128 = significand * factor as u128;
        let up: u32 = power + bits;
        proof {
            vstd::arithmetic::power2::lemma2_to64();
            lemma_regroup(significand as int, power as nat, factor as int, bits as nat);
            lemma_shifted(product as int, up as nat);
        }
        if up >= 149 {
            let shift: u32 = up - 149;
            if product == 0 {
                assert(0 * pow2(shift as nat) == 0);
                0
            } else if shift >= 128 {
                proof {
                    lemma_beyond(product as int, shift as nat);
                }
                limit
            } else {
                let unit: u128 = power_of_two(shift);
                proof {
                    vstd::arithmetic::power2::lemma_pow2_pos(shift as nat);
                    lemma_over(product as int, unit as int, limit as int);
                }
                if product > limit / unit {
                    limit
                } else {
                    product * unit
                }
            }
        } else {
            let shift: u32 = 149 - up;
            proof {
                lemma_small(product as int, shift as nat);
            }
            if shift >= 88 {
                0
            } else {
                let unit: u128 = power_of_two(shift);
                proof {
                    vstd::arithmetic::power2::lemma_pow2_pos(shift as nat);
                }
                let whole: u128 = product / unit;
                if whole < limit {
                    whole
                } else {
                    limit
                }
            }
        }
    }
}

fn power_of_two(power: u32) -> (r: u128)
    requires
        power < 128,
    ensures
        r == pow2(power as nat),
{
    let mut r: u128 = 1;
    proof {
        vstd::arithmetic::power2::lemma2_to64();
    }
    for i in 0..power
        invariant
            power < 128,
            r == pow2(i as nat),
    {
        proof {
            vstd::arithmetic::power2::lemma_pow2_unfold((i + 1) as nat);
            lemma_pow2_127();
            if i + 1 < 127 {
                vstd::arithmetic::power2::lemma_pow2_strictly_increases((i + 1) as nat, 127);
            }
        }
        r = 2 * r;
    }
    r
}

proof fn lemma_pow2_127()
    ensures
        pow2(88) == 0x100_0000 * 0x1_0000_0000_0000_0000,
        pow2(127) == u128::MAX / 2 + 1,
        pow2(128) == u128::MAX + 1,
{
    vstd::arithmetic::power2::lemma2_to64();
    vstd::arithmetic::power2::lemma2_to64_rest();
    vstd::arithmetic::power2::lemma_pow2_adds(24, 64);
    vstd::arithmetic::power2::lemma_pow2_adds(63, 64);
    vstd::arithmetic::power2::lemma_pow2_adds(64, 64);
}

proof fn lemma_regroup(significand: int, power: nat, factor: int, bits: nat)
    ensures
        significand * pow2(power) * factor * pow2(bits) == significand * factor * pow2(
            power + bits,
        ),
{
    vstd::arithmetic::power2::lemma_pow2_adds(power, bits);
    let a = pow2(power) as int;
    let b = pow2(bits) as int;
    assert(significand * a * factor * b == significand * factor * (a * b)) by (nonlinear_arith);
}

proof fn lemma_shifted(product: int, up: nat)
    requires
        product >= 0,
    ensures
        up >= 149 ==> product * pow2(up) / pow2(149) as int == product * pow2((up - 149) as nat),
        up < 149 ==> product * pow2(up) / pow2(149) as int == product / pow2(
            (149 - up) as nat,
        ) as int,
{
    if up >= 149 {
        let shift = (up - 149) as nat;
        vstd::arithmetic::power2::lemma_pow2_adds(149, shift);
        vstd::arithmetic::power2::lemma_pow2_pos(149);
        let unit = pow2(149) as int;
        let factor = pow2(shift) as int;
        assert(product * (unit * factor) == (product * factor) * unit) by (nonlinear_arith);
        vstd::arithmetic::div_mod::lemma_div_by_multiple(product * factor, unit);
    } else {
        let shift = (149 - up) as nat;
        vstd::arithmetic::power2::lemma_pow2_adds(up, shift);
        vstd::arithmetic::power2::lemma_pow2_pos(up);
        vstd::arithmetic::power2::lemma_pow2_pos(shift);
        let unit = pow2(up) as int;
        vstd::arithmetic::div_mod::lemma_div_denominator(
            product * unit,
            unit,
            pow2(shift) as int,
        );
        vstd::arithmetic::div_mod::lemma_div_by_multiple(product, unit);
    }
}

proof fn lemma_small(product: int, shift: nat)
    requires
        0 <= product < 0x100_0000 * 0x1_0000_0000_0000_0000,
    ensures
        shift >= 88 ==> product / pow2(shift) as int == 0,
{
    if shift >= 88 {
        lemma_pow2_127();
        if shift > 88 {
            vstd::arithmetic::power2::lemma_pow2_strictly_increases(88, shift);
        }
        vstd::arithmetic::div_mod::lemma_basic_div(product, pow2(shift) as int);
    }
}

proof fn lemma_beyond(product: int, shift: nat)
    requires
        product >= 1,
        shift >= 128,
    ensures
        product * pow2(shift) > u128::MAX,
{
    lemma_pow2_127();
    if shift > 128 {
        vstd::arithmetic::power2::lemma_pow2_strictly_increases(128, shift);
    }
    vstd::arithmetic::mul::lemma_mul_inequality(1, product, pow2(shift) as int);
}

proof fn lemma_over(product: int, unit: int, limit: int)
    requires
        unit > 0,
        limit >= 0,
    ensures
        product > limit / unit <==> product * unit > limit,
{
    let whole = limit / unit;
    vstd::arithmetic::div_mod::lemma_fundamental_div_mod(limit, unit);
    vstd::arithmetic::div_mod::lemma_mod_division_less_than_divisor(limit, unit);
    if product > whole {
        vstd::arithmetic::mul::lemma_mul_inequality(whole + 1, product, unit);
        assert((whole + 1) * unit == unit * whole + unit) by (nonlinear_arith);
    } else {
        vstd::arithmetic::mul::lemma_mul_inequality(product, whole, unit);
        assert(whole * unit == unit * whole) by (nonlinear_arith);
    }
}

/// Cutting a scaled number down by the same factor again gives what the number gives unscaled: no
/// fraction that matters is lost on the way.
pub proof fn scaling_keeps_whole_parts(x: Single, factor: int, by: int, bits: nat)
    requires
        factor >= 0,
        by > 0,
    ensures
        x.floor_times(factor * by, bits) / (by * pow2(bits)) == x.floor_times(factor, 0),
        x.floor_times(factor, 0) >= 0,
{
    vstd::arithmetic::power2::lemma2_to64();
    vstd::arithmetic::power2::lemma_pow2_pos(bits);
    vstd::arithmetic::power2::lemma_pow2_pos(149);
    let p = pow2(bits) as int;
    let unit = by * p;
    let whole = pow2(149) as int;
    assert(unit > 0) by (nonlinear_arith)
        requires
            by > 0,
            p > 0,
            unit == by * p,
    ;
    if x.nan() || x.key() <= 0 {
        vstd::arithmetic::div_mod::lemma_basic_div(0, unit);
    } else {
        order_is_numeric(Single::of(0), x);
        let part = x.scaled() * factor;
        assert(part >= 0) by (nonlinear_arith)
            requires
                x.scaled() >= 0,
                factor >= 0,
                part == x.scaled() * factor,
        ;
        assert(x.scaled() * (factor * by) * p == part * unit) by (nonlinear_arith)
            requires
                part == x.scaled() * factor,
                unit == by * p,
        ;
        assert(part * unit >= 0) by (nonlinear_arith)
            requires
                part >= 0,
                unit > 0,
        ;
        vstd::arithmetic::div_mod::lemma_div_denominator(part * unit, whole, unit);
        vstd::arithmetic::div_mod::lemma_div_denominator(part * unit, unit, whole);
        assert(whole * unit == unit * whole) by (nonlinear_arith);
        vstd::arithmetic::div_mod::lemma_div_by_multiple(part, unit);
        vstd::arithmetic::div_mod::lemma_div_pos_is_pos(part, whole);
        assert(part * pow2(0) == part);
    }
}

/// Comparing two numbers by their bits agrees with comparing the values that they stand for.
pub proof fn order_is_numeric(a: Single, b: Single)
    requires
        !a.nan(),
        !b.nan(),
    ensures
        a.at_most(b) <==> a.scaled() <= b.scaled(),
        a.below(b) <==> a.scaled() < b.scaled(),
{
    if a.magnitude() < b.magnitude() {
        lemma_magnitude_order(a, b);
    }
    if b.magnitude() < a.magnitude() {
        lemma_magnitude_order(b, a);
    }
    lemma_sign(a);
    lemma_sign(b);
}

proof fn lemma_sign(a: Single)
    ensures
        a.scaled_magnitude() >= 0,
        a.scaled_magnitude() == 0 <==> a.magnitude() == 0,
{
    let exponent = a.magnitude() / 0x80_0000;
    if exponent != 0 {
        let factor = pow2((exponent - 1) as nat) as int;
        vstd::arithmetic::power2::lemma_pow2_pos((exponent - 1) as nat);
        let fraction = a.magnitude() % 0x80_0000;
        assert((0x80_0000 + fraction) * factor > 0) by (nonlinear_arith)
            requires
                fraction >= 0,
                factor > 0,
        ;
    }
}

proof fn lemma_magnitude_order(a: Single, b: Single)
    requires
        a.magnitude() < b.magnitude(),
    ensures
        a.scaled_magnitude() < b.scaled_magnitude(),
{
    let ea = a.magnitude() / 0x80_0000;
    let eb = b.magnitude() / 0x80_0000;
    let fa = a.magnitude() % 0x80_0000;
    let fb = b.magnitude() % 0x80_0000;
    lemma_sign(b);
    if eb > 0 {
        let pb = pow2((eb - 1) as nat) as int;
        vstd::arithmetic::power2::lemma_pow2_pos((eb - 1) as nat);
        assert((0x80_0000 + fb) * pb >= 0x80_0000 * pb) by (nonlinear_arith)
            requires
                fb >= 0,
                pb > 0,
        ;
        if ea == eb {
            assert((0x80_0000 + fa) * pb < (0x80_0000 + fb) * pb) by (nonlinear_arith)
                requires
                    fa < fb,
                    pb > 0,
            ;
        } else if ea > 0 {
            let pa = pow2((ea - 1) as nat) as int;
            vstd::arithmetic::power2::lemma_pow2_pos((ea - 1) as nat);
            vstd::arithmetic::power2::lemma_pow2_unfold(ea as nat);
            if ea < eb - 1 {
                vstd::arithmetic::power2::lemma_pow2_strictly_increases(ea as nat, (eb - 1) as nat);
            }
            assert(2 * pa <= pb);
            assert((0x80_0000 + fa) * pa < 0x80_0000 * (2 * pa)) by (nonlinear_arith)
                requires
                    fa < 0x80_0000,
                    pa > 0,
            ;
        }
    }
}

/// Clamping never moves a number that is already inside the range, and clamping twice is clamping
/// once.
pub proof fn clamping_settles(x: Single, lo: Single, hi: Single)
    requires
        lo.at_most(hi),
    ensures
        lo.at_most(x) && x.at_most(hi) ==> x.clamped(lo, hi) == x,
        x.clamped(lo, hi).clamped(lo, hi) == x.clamped(lo, hi),
        x.clamped(lo, hi).nan() <==> x.nan(),
{
}

/// The whole part of a product is its whole part: no less than one below the product, and no more
/// than the product itself. Products are compared as whole numbers, `2^149` times their value.
pub proof fn whole_parts_are_exact(x: Single, factor: int, bits: nat)
    requires
        factor >= 0,
    ensures
        x.floor_times(factor, bits) >= 0,
        x.nan() || x.key() <= 0 ==> x.floor_times(factor, bits) == 0,
        !x.nan() && x.key() > 0 ==> {
            let product = x.scaled() * factor * pow2(bits);
            &&& x.floor_times(factor, bits) * pow2(149) <= product
            &&& product < (x.floor_times(factor, bits) + 1) * pow2(149)
        },
{
    if !x.nan() && x.key() > 0 {
        order_is_numeric(Single::of(0), x);
        vstd::arithmetic::power2::lemma_pow2_pos(bits);
        vstd::arithmetic::power2::lemma_pow2_pos(149);
        let p = pow2(bits) as int;
        let unit = pow2(149) as int;
        let part = x.scaled() * factor;
        assert(part >= 0) by (nonlinear_arith)
            requires
                x.scaled() >= 0,
                factor >= 0,
                part == x.scaled() * factor,
        ;
        assert(part * p >= 0) by (nonlinear_arith)
            requires
                part >= 0,
                p > 0,
        ;
        let whole = part * p / unit;
        vstd::arithmetic::div_mod::lemma_fundamental_div_mod(part * p, unit);
        vstd::arithmetic::div_mod::lemma_mod_division_less_than_divisor(part * p, unit);
        vstd::arithmetic::div_mod::lemma_div_pos_is_pos(part * p, unit);
        assert(unit * whole == whole * unit) by (nonlinear_arith);
        assert((whole + 1) * unit == whole * unit + unit) by (nonlinear_arith);
    }
}

/// The numbers that bits stand for, as `scaled` has them, are those of IEEE single precision: zero
/// is zero; below the smallest normal number they are counted one by one; from there on, eight
/// million steps up double a number, and between two doublings they are evenly spaced. The sign bit
/// turns the sign round, and one is one.
pub proof fn numbers_are_ieee(x: Single)
    requires
        x.bits < INFINITY,
    ensures
        Single::of(ONE).scaled() == pow2(149),
        x.bits < MIN_POSITIVE ==> x.scaled() == x.bits,
        MIN_POSITIVE <= x.bits && x.bits + 0x80_0000 < INFINITY ==> Single::of(
            (x.bits + 0x80_0000) as u32,
        ).scaled() == 2 * x.scaled(),
        MIN_POSITIVE <= x.bits ==> Single::of((x.bits + 1) as u32).scaled() - x.scaled() == pow2(
            (x.bits as int / 0x80_0000 - 1) as nat,
        ),
        Single::of((x.bits + SIGN) as u32).scaled() == -x.scaled(),
{
    vstd::arithmetic::power2::lemma2_to64();
    let e = x.bits as int / 0x80_0000;
    let fraction = x.bits as int % 0x80_0000;
    assert(Single::of(ONE).scaled() == pow2(149)) by {
        vstd::arithmetic::power2::lemma_pow2_adds(23, 126);
    }
    if MIN_POSITIVE <= x.bits {
        let p = pow2((e - 1) as nat) as int;
        vstd::arithmetic::power2::lemma_pow2_unfold(e as nat);
        let significand = 0x80_0000 + fraction;
        assert(significand * (2 * p) == 2 * (significand * p)) by (nonlinear_arith);
        if fraction + 1 < 0x80_0000 {
            assert((significand + 1) * p == significand * p + p) by (nonlinear_arith);
        } else {
            assert(0x80_0000 * (2 * p) == significand * p + p) by (nonlinear_arith)
                requires
                    significand == 0xff_ffff,
            ;
        }
    }
}

/// What is not a number compares with nothing; every other number is at most itself, and of any two
/// one is at most the other.
pub proof fn only_numbers_compare(a: Single, b: Single)
    ensures
        a.nan() || b.nan() ==> !a.at_most(b) && !a.below(b),
        !a.nan() && !b.nan() ==> (a.at_most(b) || b.at_most(a)),
        !a.nan() && !b.nan() ==> (a.below(b) <==> !b.at_most(a)),
        a.nan() <==> a.bits as int % (SIGN as int) > INFINITY,
{
}

/// The smaller and the larger of two numbers are the two numbers, in order; what is not a number
/// gives way.
pub proof fn extremes_are_the_two_numbers(a: Single, b: Single)
    ensures
        a.smaller(b) == a || a.smaller(b) == b,
        a.larger(b) == a || a.larger(b) == b,
        !a.nan() && !b.nan() ==> {
            &&& a.smaller(b).at_most(a) && a.smaller(b).at_most(b)
            &&& a.at_most(a.larger(b)) && b.at_most(a.larger(b))
        },
        a.nan() ==> a.smaller(b) == b && a.larger(b) == b,
        b.nan() && !a.nan() ==> a.smaller(b) == a && a.larger(b) == a,
{
}

/// Clamping gives the nearest number of the range: the number itself inside, the nearer end outside.
pub proof fn clamping_gives_the_nearest(x: Single, lo: Single, hi: Single)
    requires
        lo.at_most(hi),
    ensures
        x.below(lo) ==> x.clamped(lo, hi) == lo,
        lo.at_most(x) && x.at_most(hi) ==> x.clamped(lo, hi) == x,
        hi.below(x) ==> x.clamped(lo, hi) == hi,
        x.nan() ==> x.clamped(lo, hi) == x,
{
}

/// Dropping the sign gives the size of a number, and flushing changes it only where it is smaller
/// than the smallest normal number, which it makes zero.
pub proof fn signs_and_dust_are_dropped(x: Single)
    requires
        !x.nan(),
    ensures
        x.unsigned().scaled() == (if x.scaled() < 0 {
            -x.scaled()
        } else {
            x.scaled()
        }),
        x.unsigned().bits < SIGN,
        x.flushed() == x || x.flushed().bits == 0,
        x.flushed() != x ==> x.unsigned().bits < MIN_POSITIVE,
        x.unsigned().bits < MIN_POSITIVE ==> x.flushed().bits == 0,
{
    order_is_numeric(Single::of(0), x.unsigned());
}

/// The value of a positive normal number: `2^k` times it is its significand.
pub proof fn values_follow_from_bits(bits: u32, k: nat, power: int, significand: int)
    requires
        MIN_POSITIVE <= bits < INFINITY,
        k + bits as int / 0x80_0000 == 150,
        power == pow2(k),
        significand == 0x80_0000 + bits as int % 0x80_0000,
    ensures
        Single::of(bits).scaled() * power == significand * pow2(149),
{
    let e = (bits as int / 0x80_0000 - 1) as nat;
    vstd::arithmetic::power2::lemma_pow2_adds(k, e);
    let p = pow2(e) as int;
    assert((significand * p) * power == significand * (power * p)) by (nonlinear_arith);
}

} // verus!
