//! IEEE 754 binary64 values, held by their bit pattern.

use vstd::arithmetic::power2::{lemma_pow2_pos, lemma_pow2_strictly_increases, lemma_pow2_unfold, pow2};
use vstd::prelude::*;

verus! {

/// The bit that carries the sign: 2^63.
pub const SIGN_BIT: u64 = 0x8000_0000_0000_0000;

/// The magnitude bits of the two infinities; every larger magnitude is a NaN.
pub const INFINITY_BITS: u64 = 0x7ff0_0000_0000_0000;

/// One more than the largest fraction: 2^52.
pub const FRACTION_RANGE: u64 = 0x10_0000_0000_0000;

/// The size of the finite value with the given magnitude bits, counted in
/// units of 2^-1074, the smallest size that is not zero. With an exponent
/// field of 0 the fraction is the count; with an exponent field `e` above 0
/// the fraction is preceded by a 1 and scaled by 2^(e-1).
pub open spec fn scaled_size(magnitude: int) -> int {
    let exponent = magnitude / (FRACTION_RANGE as int);
    let fraction = magnitude % (FRACTION_RANGE as int);
    if exponent == 0 {
        fraction
    } else {
        (FRACTION_RANGE + fraction) * pow2((exponent - 1) as nat)
    }
}

/// A binary64 value, stored as the 64 bits of its encoding: one sign bit,
/// eleven exponent bits and fifty-two fraction bits.
#[derive(Clone, Copy, Debug)]
pub struct Binary64 {
    pub bits: u64,
}

impl Binary64 {
    /// The encoding without its sign bit.
    pub open spec fn magnitude(self) -> int {
        if self.bits >= SIGN_BIT {
            self.bits - SIGN_BIT
        } else {
            self.bits as int
        }
    }

    /// Whether the sign bit is set. This holds of `-0.0` and of some NaNs too.
    pub open spec fn sign_negative(self) -> bool {
        self.bits >= SIGN_BIT
    }

    /// Whether the value is not a number: all exponent bits set and a
    /// fraction that is not zero.
    pub open spec fn nan(self) -> bool {
        self.magnitude() > INFINITY_BITS
    }

    /// Whether the value is a number other than the two infinities.
    pub open spec fn finite(self) -> bool {
        self.magnitude() < INFINITY_BITS
    }

    /// The finite value itself, counted in units of 2^-1074.
    pub open spec fn scaled_value(self) -> int {
        if self.sign_negative() {
            -scaled_size(self.magnitude())
        } else {
            scaled_size(self.magnitude())
        }
    }

    /// An integer that orders the values that are numbers as the numbers
    /// themselves are ordered: see `lemma_key_orders_as_the_numbers`. Both
    /// zeros have key 0.
    pub open spec fn key(self) -> int {
        if self.sign_negative() {
            -self.magnitude()
        } else {
            self.magnitude()
        }
    }

    /// The comparison `self < other` of two binary64 values: false as soon
    /// as one of them is a NaN.
    pub open spec fn less_than(self, other: Binary64) -> bool {
        !self.nan() && !other.nan() && self.key() < other.key()
    }

    /// The comparison `self == other` of two binary64 values: false as soon
    /// as one of them is a NaN, and true of the two zeros.
    pub open spec fn same_number(self, other: Binary64) -> bool {
        !self.nan() && !other.nan() && self.key() == other.key()
    }

    /// The value with the opposite sign and the same magnitude.
    pub open spec fn opposite(self) -> Binary64 {
        if self.bits >= SIGN_BIT {
            Binary64 { bits: (self.bits - SIGN_BIT) as u64 }
        } else {
            Binary64 { bits: (self.bits + SIGN_BIT) as u64 }
        }
    }

    /// Wraps an encoding.
    pub fn from_bits(bits: u64) -> (r: Binary64)
        ensures
            r.bits == bits,
    {
        Binary64 { bits }
    }

    /// The encoding.
    pub fn to_bits(&self) -> (r: u64)
        ensures
            r == self.bits,
    {
        self.bits
    }

    /// Tells whether the value is a NaN.
    pub fn is_nan(&self) -> (r: bool)
        ensures
            r == self.nan(),
    {
        let magnitude: u64 = if self.bits >= SIGN_BIT {
            self.bits - SIGN_BIT
        } else {
            self.bits
        };
        magnitude > INFINITY_BITS
    }

    /// Flips the sign and keeps the magnitude.
    pub fn negated(&self) -> (r: Binary64)
        ensures
            r == self.opposite(),
            r.magnitude() == self.magnitude(),
            r.sign_negative() != self.sign_negative(),
            r.nan() == self.nan(),
    {
        if self.bits >= SIGN_BIT {
            Binary64 { bits: self.bits - SIGN_BIT }
        } else {
            Binary64 { bits: self.bits + SIGN_BIT }
        }
    }

    /// The key by which numbers are ordered, as a machine integer.
    pub fn order_key(&self) -> (r: i64)
        ensures
            r == self.key(),
    {
        if self.bits >= SIGN_BIT {
            let magnitude: u64 = self.bits - SIGN_BIT;
            -(magnitude as i64)
        } else {
            self.bits as i64
        }
    }

    /// Computes `self < other`.
    pub fn lt(&self, other: &Binary64) -> (r: bool)
        ensures
            r == self.less_than(*other),
    {
        !self.is_nan() && !other.is_nan() && self.order_key() < other.order_key()
    }
}

/// No size is negative, and only the magnitude 0 encodes the size 0.
proof fn lemma_scaled_size_of_zero(a: int)
    requires
        0 <= a < INFINITY_BITS,
    ensures
        0 <= scaled_size(a),
        a == 0 <==> scaled_size(a) == 0,
{
    let range = FRACTION_RANGE as int;
    let exponent = a / range;
    let fraction = a % range;
    if exponent > 0 {
        let p = pow2((exponent - 1) as nat) as int;
        lemma_pow2_pos((exponent - 1) as nat);
        assert((range + fraction) * p >= range + fraction) by (nonlinear_arith)
            requires
                p >= 1,
                range + fraction >= 0,
        ;
    }
}

/// A larger magnitude encodes a larger size.
proof fn lemma_scaled_size_increases(a: int, b: int)
    requires
        0 <= a < b < INFINITY_BITS,
    ensures
        scaled_size(a) < scaled_size(b),
{
    let range = FRACTION_RANGE as int;
    let ea = a / range;
    let fa = a % range;
    let eb = b / range;
    let fb = b % range;
    assert(ea <= eb);
    if ea == eb {
        if ea > 0 {
            let p = pow2((ea - 1) as nat) as int;
            lemma_pow2_pos((ea - 1) as nat);
            assert((range + fa) * p < (range + fb) * p) by (nonlinear_arith)
                requires
                    fa < fb,
                    p > 0,
            ;
        }
    } else {
        let pb = pow2((eb - 1) as nat) as int;
        lemma_pow2_pos((eb - 1) as nat);
        assert((range + fb) * pb >= range * pb) by (nonlinear_arith)
            requires
                fb >= 0,
                pb > 0,
        ;
        if ea == 0 {
            assert(range * pb >= range) by (nonlinear_arith)
                requires
                    pb >= 1,
                    range > 0,
            ;
        } else {
            let pa = pow2((ea - 1) as nat) as int;
            lemma_pow2_pos((ea - 1) as nat);
            lemma_pow2_unfold(ea as nat);
            if ea < eb - 1 {
                lemma_pow2_strictly_increases(ea as nat, (eb - 1) as nat);
            }
            assert(2 * pa <= pb);
            assert((range + fa) * pa < range * pb) by (nonlinear_arith)
                requires
                    0 <= fa < range,
                    pa > 0,
                    2 * pa <= pb,
            ;
        }
    }
}

/// The key orders the finite values as the numbers that they denote, and
/// takes two of them for equal where they denote the same number. The keys
/// of the infinities lie beyond those of all finite values, on either side.
pub proof fn lemma_key_orders_as_the_numbers(x: Binary64, y: Binary64)
    requires
        x.finite(),
        y.finite(),
    ensures
        x.key() < y.key() <==> x.scaled_value() < y.scaled_value(),
        x.key() == y.key() <==> x.scaled_value() == y.scaled_value(),
        -INFINITY_BITS < x.key() < INFINITY_BITS,
{
    let a = x.magnitude();
    let b = y.magnitude();
    lemma_scaled_size_of_zero(a);
    lemma_scaled_size_of_zero(b);
    if a < b {
        lemma_scaled_size_increases(a, b);
    } else if b < a {
        lemma_scaled_size_increases(b, a);
    }
}

/// Changing the sign keeps the magnitude, and so whether the value is a
/// NaN. It flips the sign bit, turns the key and the number into their
/// negatives and turns the order of two values round; done twice, it gives
/// the value back.
pub proof fn lemma_opposite_mirrors(x: Binary64, y: Binary64)
    ensures
        x.opposite().magnitude() == x.magnitude(),
        x.opposite().nan() == x.nan(),
        x.opposite().sign_negative() == !x.sign_negative(),
        x.opposite().key() == -x.key(),
        x.opposite().scaled_value() == -x.scaled_value(),
        x.opposite().opposite() == x,
        x.less_than(y) <==> y.opposite().less_than(x.opposite()),
        x.same_number(y) <==> x.opposite().same_number(y.opposite()),
{
}

/// On the values that are numbers, `less_than` is a strict total order up
/// to `same_number`: of two numbers either one is less or they are the same
/// number, never two of these at once, and `less_than` carries over from one
/// pair to the next. A NaN is neither less than, nor more than, nor the
/// same number as any value, itself included.
pub proof fn lemma_less_than_orders_numbers(x: Binary64, y: Binary64, z: Binary64)
    ensures
        !x.less_than(x),
        x.less_than(y) && y.less_than(z) ==> x.less_than(z),
        !x.nan() && !y.nan() ==> (x.less_than(y) || y.less_than(x) || x.same_number(y)),
        !(x.less_than(y) && y.less_than(x)),
        !(x.less_than(y) && x.same_number(y)),
        x.nan() || y.nan() ==> !x.less_than(y) && !y.less_than(x) && !x.same_number(y),
{
}

impl PartialEq for Binary64 {
    /// Equality of the values, not of the encodings: a NaN equals nothing,
    /// itself included, and the two zeros are equal.
    fn eq(&self, other: &Binary64) -> (r: bool) {
        !self.is_nan() && !other.is_nan() && self.order_key() == other.order_key()
    }
}

impl vstd::std_specs::cmp::PartialEqSpecImpl for Binary64 {
    open spec fn obeys_eq_spec() -> bool {
        true
    }

    open spec fn eq_spec(&self, other: &Binary64) -> bool {
        self.same_number(*other)
    }
}

} // verus!
