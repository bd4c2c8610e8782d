//! 64-bit floats as bit patterns.
//!
//! A [`Float`] holds the IEEE-754 binary64 encoding of a number. Ordering
//! and the conversion from integers are computed here on the encoding;
//! every other operation is the host's, through [`FloatMath`].

use vstd::arithmetic::power2::{
    lemma2_to64, lemma2_to64_rest, lemma_pow2_adds, lemma_pow2_pos, lemma_pow2_strictly_increases,
    lemma_pow2_unfold, pow2,
};
use vstd::prelude::*;

verus! {

/// The encoding's highest bit: set for negative numbers.
pub const SIGN_BIT: u64 = 0x8000_0000_0000_0000;

/// The encoding of positive infinity. A magnitude below it is a finite
/// number, one above it is not a number.
pub const INFINITY_BITS: u64 = 0x7FF0_0000_0000_0000;

/// The number of encodings per exponent: two to the power 52.
pub const MANTISSA_RANGE: u64 = 0x0010_0000_0000_0000;

/// A 64-bit float, given by its encoding.
#[derive(Clone, Copy, Debug, PartialEq, Eq, Structural)]
pub struct Float {
    pub bits: u64,
}

/// How two numbers stand to each other.
#[derive(Clone, Copy, Debug, PartialEq, Eq, Structural)]
pub enum Order {
    Less,
    Equal,
    Greater,
}

/// The order of two mathematical integers.
pub open spec fn order_of(a: int, b: int) -> Order {
    if a < b {
        Order::Less
    } else if a == b {
        Order::Equal
    } else {
        Order::Greater
    }
}

impl Float {
    /// The encoding without its sign bit.
    pub open spec fn magnitude(self) -> int {
        if self.bits >= SIGN_BIT {
            self.bits - SIGN_BIT
        } else {
            self.bits as int
        }
    }

    pub open spec fn is_negative(self) -> bool {
        self.bits >= SIGN_BIT
    }

    /// Neither infinite nor not-a-number.
    pub open spec fn finite(self) -> bool {
        self.magnitude() < INFINITY_BITS
    }

    /// The biased exponent field, from 0 to 2047.
    pub open spec fn exponent(self) -> int {
        self.magnitude() / (MANTISSA_RANGE as int)
    }

    /// The fraction field, below two to the power 52.
    pub open spec fn mantissa(self) -> int {
        self.magnitude() % (MANTISSA_RANGE as int)
    }

    /// The absolute value of the number, times two to the power 1074: an
    /// integer for every finite float, since each is a multiple of the
    /// smallest subnormal.
    pub open spec fn scaled_magnitude(self) -> int {
        if self.exponent() == 0 {
            self.mantissa()
        } else {
            (MANTISSA_RANGE + self.mantissa()) * pow2((self.exponent() - 1) as nat)
        }
    }

    /// The number times two to the power 1074. Both zeros give 0.
    pub open spec fn scaled(self) -> int {
        if self.is_negative() {
            -self.scaled_magnitude()
        } else {
            self.scaled_magnitude()
        }
    }

    /// The signed position of the encoding among all encodings, both zeros
    /// at 0. [`lemma_ordinal_orders_values`] shows that it orders floats as
    /// their values do.
    pub open spec fn ordinal(self) -> int {
        if self.is_negative() {
            -self.magnitude()
        } else {
            self.magnitude()
        }
    }

    /// How the value of `self` stands to the value of `other`.
    pub open spec fn order_spec(self, other: Float) -> Order {
        order_of(self.scaled(), other.scaled())
    }

    pub fn from_bits(bits: u64) -> (f: Float)
        ensures
            f.bits == bits,
    {
        Float { bits }
    }

    pub fn to_bits(self) -> (bits: u64)
        ensures
            bits == self.bits,
    {
        self.bits
    }

    pub fn is_finite(self) -> (r: bool)
        ensures
            r == self.finite(),
    {
        let magnitude = if self.bits >= SIGN_BIT {
            self.bits - SIGN_BIT
        } else {
            self.bits
        };
        magnitude < INFINITY_BITS
    }

    /// Compares two floats by value. Negative zero equals positive zero.
    /// An encoding that is not finite is ordered as [`Float::scaled`] has
    /// it: beyond every finite number of its sign.
    pub fn order(self, other: Float) -> (r: Order)
        ensures
            r == self.order_spec(other),
    {
        proof {
            lemma_ordinal_orders_values(self, other);
        }
        let a_negative = self.bits >= SIGN_BIT;
        let b_negative = other.bits >= SIGN_BIT;
        let a: u64 = if a_negative {
            self.bits - SIGN_BIT
        } else {
            self.bits
        };
        let b: u64 = if b_negative {
            other.bits - SIGN_BIT
        } else {
            other.bits
        };
        if a_negative && b_negative {
            if a > b {
                Order::Less
            } else if a == b {
                Order::Equal
            } else {
                Order::Greater
            }
        } else if a_negative {
            if a == 0 && b == 0 {
                Order::Equal
            } else {
                Order::Less
            }
        } else if b_negative {
            if a == 0 && b == 0 {
                Order::Equal
            } else {
                Order::Greater
            }
        } else {
            if a < b {
                Order::Less
            } else if a == b {
                Order::Equal
            } else {
                Order::Greater
            }
        }
    }
}

/// The position of the highest set bit of `m`: the `p` with
/// `pow2(p) <= m < pow2(p + 1)`, for `m` of at least 1.
pub open spec fn floor_log2(m: int) -> nat
    decreases m,
{
    if m <= 1 {
        0
    } else {
        1 + floor_log2(m / 2)
    }
}

/// The magnitude of the encoding that integer `m`, from 1 to two to the
/// power 63, is rounded to: the nearest float, and of two equally near the
/// one with the even mantissa.
///
/// With `p` the position of the highest bit of `m`, an `m` of at most 53
/// bits is shifted up to 53 bits and is exact. A longer one loses its low
/// `p - 52` bits; where they are more than half a unit of the last kept bit,
/// or exactly half with the last kept bit set, the encoding is one higher
/// (which carries into the exponent when the mantissa is full).
pub open spec fn nearest_magnitude(m: int) -> int {
    let p = floor_log2(m);
    if p <= 52 {
        (p + 1023) * MANTISSA_RANGE + (m * pow2((52 - p) as nat) - MANTISSA_RANGE)
    } else {
        let unit = pow2((p - 52) as nat) as int;
        let kept = m / unit;
        let lost = m % unit;
        let up: int = if 2 * lost > unit || (2 * lost == unit && kept % 2 == 1) {
            1
        } else {
            0
        };
        (p + 1023) * MANTISSA_RANGE + (kept - MANTISSA_RANGE) + up
    }
}

/// The float that a signed 64-bit integer is promoted to.
pub open spec fn nearest(i: int) -> Float {
    if i == 0 {
        Float { bits: 0 }
    } else if i < 0 {
        Float { bits: (SIGN_BIT + nearest_magnitude(-i)) as u64 }
    } else {
        Float { bits: nearest_magnitude(i) as u64 }
    }
}

/// Two to the power `e`.
fn power_of_two(e: u64) -> (r: u64)
    requires
        e <= 63,
    ensures
        r == pow2(e as nat),
{
    let mut r: u64 = 1;
    let mut k: u64 = 0;
    proof {
        lemma2_to64();
    }
    while k < e
        invariant
            k <= e <= 63,
            r == pow2(k as nat),
        decreases e - k,
    {
        proof {
            lemma_pow2_unfold((k + 1) as nat);
            if k + 1 < 63 {
                lemma_pow2_strictly_increases((k + 1) as nat, 63);
            }
            lemma2_to64_rest();
        }
        r = r * 2;
        k = k + 1;
    }
    r
}

/// The loop of [`highest_bit`] keeps this: halving `m` `k` times leaves the
/// rest of the logarithm.
proof fn lemma_floor_log2_step(m: int, d: int)
    requires
        d >= 1,
        m >= 2 * d,
    ensures
        floor_log2(m / d) == 1 + floor_log2(m / (2 * d)),
{
    assert(m / d >= 2) by {
        vstd::arithmetic::div_mod::lemma_div_is_ordered(2 * d, m, d);
        vstd::arithmetic::div_mod::lemma_div_multiples_vanish(2, d);
    }
    assert((m / d) / 2 == m / (d * 2)) by {
        vstd::arithmetic::div_mod::lemma_div_denominator(m, d, 2);
    }
    assert(d * 2 == 2 * d);
}

/// The position `p` of the highest set bit of `m`, with two to that power.
fn highest_bit(m: u64) -> (r: (u64, u64))
    requires
        m >= 1,
    ensures
        r.0 == floor_log2(m as int),
        r.0 <= 63,
        r.1 == pow2(r.0 as nat),
        r.1 <= m,
        m - r.1 < r.1,
{
    let mut p: u64 = 0;
    let mut d: u64 = 1;
    proof {
        lemma2_to64();
    }
    while m - d >= d
        invariant
            1 <= d <= m,
            d == pow2(p as nat),
            p <= 63,
            floor_log2(m as int) == p + floor_log2(m as int / d as int),
        decreases m - d,
    {
        proof {
            lemma_floor_log2_step(m as int, d as int);
            lemma_pow2_unfold((p + 1) as nat);
            if p >= 63 {
                lemma2_to64_rest();
            }
        }
        d = d * 2;
        p = p + 1;
    }
    proof {
        assert(m as int / d as int == 1) by {
            vstd::arithmetic::div_mod::lemma_fundamental_div_mod_converse(
                m as int,
                d as int,
                1,
                m - d,
            );
        }
    }
    (p, d)
}

impl Float {
    /// Promotes an integer to the nearest float, as a cast does.
    pub fn from_i64(i: i64) -> (r: Float)
        ensures
            r == nearest(i as int),
            r.finite(),
    {
        if i == 0 {
            return Float { bits: 0 };
        }
        let m: u64 = if i < 0 {
            (0 - (i as i128)) as u64
        } else {
            i as u64
        };
        let (p, top) = highest_bit(m);
        let magnitude: u64 = if p <= 52 {
            let factor = power_of_two(52 - p);
            proof {
                lemma2_to64_rest();
                lemma_pow2_adds(p as nat, (52 - p) as nat);
                assert(top * factor == MANTISSA_RANGE);
                assert(m * factor >= top * factor) by (nonlinear_arith)
                    requires
                        m >= top,
                        factor >= 0,
                ;
                assert(m * factor < 2 * (top * factor)) by (nonlinear_arith)
                    requires
                        m < 2 * top,
                        factor > 0,
                        top > 0,
                ;
            }
            (p + 1023) * MANTISSA_RANGE + (m * factor - MANTISSA_RANGE)
        } else {
            let unit = power_of_two(p - 52);
            proof {
                lemma_pow2_pos((p - 52) as nat);
            }
            let kept = m / unit;
            let lost = m % unit;
            proof {
                lemma2_to64_rest();
                lemma_pow2_adds(52, (p - 52) as nat);
                assert(MANTISSA_RANGE * unit == top);
                vstd::arithmetic::div_mod::lemma_fundamental_div_mod(m as int, unit as int);
                assert(kept >= MANTISSA_RANGE) by (nonlinear_arith)
                    requires
                        m == unit * kept + lost,
                        lost < unit,
                        MANTISSA_RANGE * unit <= m,
                        unit > 0,
                ;
                assert(kept < 2 * MANTISSA_RANGE) by (nonlinear_arith)
                    requires
                        m == unit * kept + lost,
                        0 <= lost,
                        m < 2 * (MANTISSA_RANGE * unit),
                        unit > 0,
                ;
            }
            let up: u64 = if lost > unit - lost || (lost == unit - lost && kept % 2 == 1) {
                1
            } else {
                0
            };
            (p + 1023) * MANTISSA_RANGE + (kept - MANTISSA_RANGE) + up
        };
        assert(magnitude < INFINITY_BITS);
        if i < 0 {
            Float { bits: SIGN_BIT + magnitude }
        } else {
            Float { bits: magnitude }
        }
    }
}

/// Encodings of the same sign are ordered as the magnitudes of their
/// values are.
pub proof fn lemma_magnitude_orders_values(a: Float, b: Float)
    requires
        a.magnitude() < b.magnitude(),
    ensures
        0 <= a.scaled_magnitude() < b.scaled_magnitude(),
{
    let r = MANTISSA_RANGE as int;
    let (ea, ma) = (a.exponent(), a.mantissa());
    let (eb, mb) = (b.exponent(), b.mantissa());
    assert(a.magnitude() == r * ea + ma && 0 <= ma < r) by {
        vstd::arithmetic::div_mod::lemma_fundamental_div_mod(a.magnitude(), r);
    }
    assert(b.magnitude() == r * eb + mb && 0 <= mb < r) by {
        vstd::arithmetic::div_mod::lemma_fundamental_div_mod(b.magnitude(), r);
    }
    assert(0 <= ea) by {
        vstd::arithmetic::div_mod::lemma_div_pos_is_pos(a.magnitude(), r);
    }
    assert(ea <= eb) by {
        vstd::arithmetic::div_mod::lemma_div_is_ordered(a.magnitude(), b.magnitude(), r);
    }
    if ea == eb {
        assert(ma < mb);
        if ea != 0 {
            let p = pow2((ea - 1) as nat) as int;
            lemma_pow2_pos((ea - 1) as nat);
            assert((r + ma) * p < (r + mb) * p) by (nonlinear_arith)
                requires
                    ma < mb,
                    p > 0,
            ;
            assert(0 <= (r + ma) * p) by (nonlinear_arith)
                requires
                    0 <= ma,
                    r > 0,
                    p > 0,
            ;
        }
    } else {
        let q = pow2((eb - 1) as nat) as int;
        lemma_pow2_pos((eb - 1) as nat);
        if ea == 0 {
            assert(r <= (r + mb) * q) by (nonlinear_arith)
                requires
                    0 <= mb,
                    r > 0,
                    q >= 1,
            ;
        } else {
            let p = pow2((ea - 1) as nat) as int;
            lemma_pow2_pos((ea - 1) as nat);
            assert(2 * p <= q) by {
                lemma_pow2_unfold(ea as nat);
                if ea < eb - 1 {
                    lemma_pow2_strictly_increases(ea as nat, (eb - 1) as nat);
                }
            }
            assert((r + ma) * p < (r + mb) * q) by (nonlinear_arith)
                requires
                    0 <= ma < r,
                    0 <= mb,
                    p > 0,
                    2 * p <= q,
            ;
            assert(0 <= (r + ma) * p) by (nonlinear_arith)
                requires
                    0 <= ma,
                    r > 0,
                    p > 0,
            ;
        }
    }
}

/// The ordinal of an encoding orders floats exactly as their values do.
pub proof fn lemma_ordinal_orders_values(a: Float, b: Float)
    ensures
        order_of(a.ordinal(), b.ordinal()) == order_of(a.scaled(), b.scaled()),
{
    if a.magnitude() < b.magnitude() {
        lemma_magnitude_orders_values(a, b);
    } else if b.magnitude() < a.magnitude() {
        lemma_magnitude_orders_values(b, a);
    }
    lemma_scaled_magnitude_zero(a);
    lemma_scaled_magnitude_zero(b);
}

/// Only the two zeros have the value zero.
pub proof fn lemma_scaled_magnitude_zero(a: Float)
    ensures
        a.scaled_magnitude() >= 0,
        a.scaled_magnitude() == 0 <==> a.magnitude() == 0,
{
    let zero = Float { bits: 0 };
    assert(zero.magnitude() == 0);
    assert(zero.scaled_magnitude() == 0);
    if a.magnitude() > 0 {
        lemma_magnitude_orders_values(zero, a);
    }
}

/// The highest set bit of `m` is where [`floor_log2`] says.
pub proof fn lemma_floor_log2(m: int)
    requires
        m >= 1,
    ensures
        pow2(floor_log2(m)) <= m < pow2(floor_log2(m) + 1),
    decreases m,
{
    if m <= 1 {
        lemma2_to64();
    } else {
        lemma_floor_log2(m / 2);
        let q = floor_log2(m / 2);
        lemma_pow2_unfold(q + 1);
        lemma_pow2_unfold(q + 2);
    }
}

/// The value of a finite float with a given exponent field and mantissa.
proof fn lemma_scaled_of_fields(f: Float, exponent: int, mantissa: int)
    requires
        !f.is_negative(),
        1 <= exponent,
        0 <= mantissa < MANTISSA_RANGE,
        f.bits == exponent * MANTISSA_RANGE + mantissa,
    ensures
        f.scaled() == (MANTISSA_RANGE + mantissa) * pow2((exponent - 1) as nat),
{
    let r = MANTISSA_RANGE as int;
    vstd::arithmetic::div_mod::lemma_fundamental_div_mod_converse(
        f.magnitude(),
        r,
        exponent,
        mantissa,
    );
}

/// An integer of at most 53 bits is promoted to the float of exactly its
/// value: no rounding takes place up to two to the power 53.
pub proof fn lemma_nearest_is_exact(i: int)
    requires
        -0x20_0000_0000_0000 <= i <= 0x20_0000_0000_0000,
    ensures
        nearest(i).scaled() == i * pow2(1074),
{
    if i == 0 {
        assert(Float { bits: 0 }.scaled() == 0);
    } else {
        let m = if i < 0 {
            -i
        } else {
            i
        };
        let r = MANTISSA_RANGE as int;
        let p = floor_log2(m);
        lemma_floor_log2(m);
        lemma2_to64_rest();
        if p >= 54 {
            lemma_pow2_strictly_increases(53, p);
        }
        let positive = Float { bits: nearest_magnitude(m) as u64 };
        if p <= 52 {
            let factor = pow2((52 - p) as nat) as int;
            lemma_pow2_adds(p, (52 - p) as nat);
            lemma_pow2_unfold(p + 1);
            lemma_pow2_pos((52 - p) as nat);
            assert(r <= m * factor < 2 * r) by (nonlinear_arith)
                requires
                    pow2(p) <= m < 2 * pow2(p),
                    pow2(p) * factor == r,
                    factor > 0,
            ;
            let mantissa = m * factor - r;
            assert(nearest_magnitude(m) == (p + 1023) * r + mantissa);
            assert((p + 1023) * r + mantissa < 0x8000_0000_0000_0000) by (nonlinear_arith)
                requires
                    p <= 52,
                    mantissa < r,
                    r == 0x10_0000_0000_0000,
            ;
            lemma_scaled_of_fields(positive, (p + 1023) as int, mantissa);
            lemma_pow2_adds((52 - p) as nat, p + 1022);
            assert(m * factor * pow2(p + 1022) == m * pow2(1074)) by (nonlinear_arith)
                requires
                    factor * pow2(p + 1022) == pow2(1074),
            ;
        } else {
            assert(p == 53 && m == 0x20_0000_0000_0000) by {
                lemma_pow2_unfold(54);
            }
            lemma2_to64();
            assert(pow2(1) == 2);
            assert(nearest_magnitude(m) == 1076 * r);
            lemma_scaled_of_fields(positive, 1076, 0);
            lemma_pow2_adds(1, 1074);
            lemma_pow2_unfold(1075);
            assert(r * pow2(1075) == m * pow2(1074)) by (nonlinear_arith)
                requires
                    pow2(1075) == 2 * pow2(1074),
                    m == 2 * r,
            ;
        }
        if i < 0 {
            let negative = nearest(i);
            assert(negative.bits == SIGN_BIT + positive.bits);
            assert(negative.magnitude() == positive.magnitude());
            assert(negative.scaled() == -positive.scaled());
            assert(-(m * pow2(1074)) == i * pow2(1074)) by (nonlinear_arith)
                requires
                    m == -i,
            ;
        }
    }
}

/// The unit of the last kept bit when `m` is rounded to 53 bits: two to
/// the power of the number of bits lost, and zero where none is lost.
pub open spec fn rounding_unit(m: int) -> int {
    if floor_log2(m) <= 52 {
        0
    } else {
        pow2((floor_log2(m) - 52) as nat) as int
    }
}

/// A 64-bit integer is promoted to a float that lies within half a unit
/// of the last kept bit of it.
pub proof fn lemma_nearest_is_near(i: int)
    requires
        i64::MIN <= i <= i64::MAX,
    ensures
        ({
            let m = if i < 0 {
                -i
            } else {
                i
            };
            let error = nearest(i).scaled() - i * pow2(1074);
            -(rounding_unit(m) * pow2(1074)) <= 2 * error <= rounding_unit(m) * pow2(1074)
        }),
{
    let m = if i < 0 {
        -i
    } else {
        i
    };
    if i == 0 || floor_log2(m) <= 52 {
        // nothing is lost: the float is exact
        if i != 0 {
            lemma_floor_log2(m);
            lemma2_to64_rest();
            lemma_pow2_unfold(floor_log2(m) + 1);
            if floor_log2(m) < 52 {
                lemma_pow2_strictly_increases(floor_log2(m) + 1, 53);
            }
        }
        lemma_nearest_is_exact(i);
        if i == 0 {
            assert(floor_log2(0) == 0);
        }
        let unit = rounding_unit(m);
        assert(unit == 0);
        assert(unit * pow2(1074) == 0) by (nonlinear_arith)
            requires
                unit == 0,
        ;
    } else {
        let r = MANTISSA_RANGE as int;
        let p = floor_log2(m);
        lemma_floor_log2(m);
        lemma2_to64_rest();
        lemma_pow2_unfold(p + 1);
        assert(p <= 63) by {
            if p >= 64 {
                if p > 64 {
                    lemma_pow2_strictly_increases(64, p);
                }
            }
        }
        let unit = pow2((p - 52) as nat) as int;
        let kept = m / unit;
        let lost = m % unit;
        lemma_pow2_pos((p - 52) as nat);
        lemma_pow2_adds(52, (p - 52) as nat);
        vstd::arithmetic::div_mod::lemma_fundamental_div_mod(m, unit);
        assert(r <= kept < 2 * r) by (nonlinear_arith)
            requires
                m == unit * kept + lost,
                0 <= lost < unit,
                r * unit <= m < 2 * (r * unit),
                unit > 0,
        ;
        let up: int = if 2 * lost > unit || (2 * lost == unit && kept % 2 == 1) {
            1
        } else {
            0
        };
        let magnitude = nearest_magnitude(m);
        assert(magnitude == (p + 1023) * r + (kept - r) + up);
        assert(magnitude < 0x8000_0000_0000_0000) by (nonlinear_arith)
            requires
                magnitude == (p + 1023) * r + (kept - r) + up,
                p <= 63,
                kept < 2 * r,
                up <= 1,
                r == 0x10_0000_0000_0000,
        ;
        let positive = Float { bits: magnitude as u64 };
        let scale = pow2(p + 1022) as int;
        lemma_pow2_pos(p + 1022);
        assert(positive.scaled() == (kept + up) * scale) by {
            if kept + up < 2 * r {
                lemma_scaled_of_fields(positive, (p + 1023) as int, kept - r + up);
            } else {
                assert(magnitude == (p + 1024) * r) by (nonlinear_arith)
                    requires
                        magnitude == (p + 1023) * r + (kept - r) + up,
                        kept + up == 2 * r,
                ;
                lemma_scaled_of_fields(positive, (p + 1024) as int, 0);
                lemma_pow2_unfold(p + 1023);
                assert(r * pow2(p + 1023) == (kept + up) * scale) by (nonlinear_arith)
                    requires
                        pow2(p + 1023) == 2 * scale,
                        kept + up == 2 * r,
                ;
            }
        }
        lemma_pow2_adds((p - 52) as nat, 1074);
        let tiny = pow2(1074) as int;
        assert(scale == unit * tiny);
        let error = positive.scaled() - m * tiny;
        assert(error == (up * unit - lost) * tiny) by (nonlinear_arith)
            requires
                error == (kept + up) * scale - m * tiny,
                scale == unit * tiny,
                m == unit * kept + lost,
        ;
        lemma_pow2_pos(1074);
        assert(-(unit * tiny) <= 2 * error <= unit * tiny) by (nonlinear_arith)
            requires
                error == (up * unit - lost) * tiny,
                tiny > 0,
                0 <= lost < unit,
                up == 1 ==> 2 * lost >= unit,
                up == 0 ==> 2 * lost <= unit,
                up == 0 || up == 1,
        ;
        assert(rounding_unit(m) == unit);
        if i < 0 {
            let negative = nearest(i);
            assert(negative.bits == SIGN_BIT + positive.bits);
            assert(negative.magnitude() == positive.magnitude());
            assert(negative.scaled() == -positive.scaled());
            assert(-(m * tiny) == i * tiny) by (nonlinear_arith)
                requires
                    m == -i,
            ;
            assert(nearest(i).scaled() - i * tiny == -error);
        }
    }
}

/// Floating-point arithmetic, which the host supplies.
///
/// Nothing is assumed of what an implementation returns: each says for
/// itself, in the relation that stands beside a method, what the method
/// may give, and whoever calls it learns that much and no more. Every
/// result is tested with [`Float::is_finite`] before it becomes a value.
pub trait FloatMath {
    /// Whether `sum` is what [`FloatMath::add`] may give for `a` and `b`.
    /// An implementation that does not say may give anything.
    open spec fn add_gives(&self, a: Float, b: Float, sum: Float) -> bool {
        true
    }

    /// Whether `difference` is what [`FloatMath::sub`] may give for `a`
    /// and `b`.
    open spec fn sub_gives(&self, a: Float, b: Float, difference: Float) -> bool {
        true
    }

    /// Whether `power` is what [`FloatMath::pow`] may give for `base` and
    /// `exponent`.
    open spec fn pow_gives(&self, base: Float, exponent: Float, power: Float) -> bool {
        true
    }

    /// Whether `logarithm` is what [`FloatMath::log10`] may give for `x`.
    open spec fn log10_gives(&self, x: Float, logarithm: Float) -> bool {
        true
    }

    /// Whether `x` is what [`FloatMath::parse`] may give for `literal`.
    open spec fn parse_gives(&self, literal: Seq<char>, x: Float) -> bool {
        true
    }

    /// The sum of two floats.
    fn add(&self, a: Float, b: Float) -> (sum: Float)
        ensures
            self.add_gives(a, b, sum),
    ;

    /// The difference of two floats.
    fn sub(&self, a: Float, b: Float) -> (difference: Float)
        ensures
            self.sub_gives(a, b, difference),
    ;

    /// `base` raised to `exponent`.
    fn pow(&self, base: Float, exponent: Float) -> (power: Float)
        ensures
            self.pow_gives(base, exponent, power),
    ;

    /// The logarithm of `x` to base 10.
    fn log10(&self, x: Float) -> (logarithm: Float)
        ensures
            self.log10_gives(x, logarithm),
    ;

    /// The float that a decimal literal denotes: an optional minus sign,
    /// digits, a point, digits.
    fn parse(&self, literal: &str) -> (x: Float)
        ensures
            self.parse_gives(literal@, x),
    ;
}

/// The encoding of a not-a-number.
pub const NOT_A_NUMBER: u64 = 0x7FF8_0000_0000_0000;

/// The arithmetic of a host that has none: whatever it is asked, it gives
/// not-a-number. With it integers are all there is: every float literal
/// and every operation on floats fails.
pub struct NoFloatMath;

impl FloatMath for NoFloatMath {
    open spec fn add_gives(&self, a: Float, b: Float, sum: Float) -> bool {
        sum.bits == NOT_A_NUMBER
    }

    open spec fn sub_gives(&self, a: Float, b: Float, difference: Float) -> bool {
        difference.bits == NOT_A_NUMBER
    }

    open spec fn pow_gives(&self, base: Float, exponent: Float, power: Float) -> bool {
        power.bits == NOT_A_NUMBER
    }

    open spec fn log10_gives(&self, x: Float, logarithm: Float) -> bool {
        logarithm.bits == NOT_A_NUMBER
    }

    open spec fn parse_gives(&self, literal: Seq<char>, x: Float) -> bool {
        x.bits == NOT_A_NUMBER
    }

    fn add(&self, a: Float, b: Float) -> (sum: Float)
        ensures
            !sum.finite(),
    {
        Float { bits: NOT_A_NUMBER }
    }

    fn sub(&self, a: Float, b: Float) -> (difference: Float)
        ensures
            !difference.finite(),
    {
        Float { bits: NOT_A_NUMBER }
    }

    fn pow(&self, base: Float, exponent: Float) -> (power: Float)
        ensures
            !power.finite(),
    {
        Float { bits: NOT_A_NUMBER }
    }

    fn log10(&self, x: Float) -> (logarithm: Float)
        ensures
            !logarithm.finite(),
    {
        Float { bits: NOT_A_NUMBER }
    }

    fn parse(&self, literal: &str) -> (x: Float)
        ensures
            !x.finite(),
    {
        Float { bits: NOT_A_NUMBER }
    }
}

} // verus!
