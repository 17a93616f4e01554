//! Run times, held as integers.
//!
//! A run time arrives as an IEEE 754 single-precision number of seconds. The
//! store never computes with it: it only asks which of two times is the
//! smaller, and hands the time back unchanged. So a [`Time`] keeps one `u32`,
//! its *order key*, chosen so that keys compare exactly as the numbers do, and
//! so that the number's bit pattern can be recovered from the key.
//!
//! Writing `m` for the bit pattern without its sign bit, the key of a number
//! that is not negative is `m + 2^31`, and the key of a negative number is
//! `2^31 - 1 - m`. Negative zero is taken for zero, and a pattern that is not a
//! number has no key. That keys compare as the numbers do is stated against
//! the value that the format gives to a pattern, in
//! [`law_keys_order_as_numbers`].

use vstd::arithmetic::mul::{lemma_mul_left_inequality, lemma_mul_strict_inequality};
use vstd::arithmetic::power2::{
    lemma_pow2_pos, lemma_pow2_strictly_increases, lemma_pow2_unfold, pow2,
};
use vstd::prelude::*;

verus! {

/// The bit of a single-precision pattern that carries the sign.
pub const SIGN_BIT: u32 = 0x8000_0000;

/// The pattern of positive infinity, the largest magnitude that is a number.
pub const INFINITY_BITS: u32 = 0x7f80_0000;

/// The pattern without its sign bit.
pub open spec fn magnitude(bits: u32) -> int {
    if bits >= SIGN_BIT {
        bits - SIGN_BIT
    } else {
        bits as int
    }
}

/// Whether the pattern is "not a number": all exponent bits set and a
/// fraction that is not zero.
pub open spec fn is_nan(bits: u32) -> bool {
    magnitude(bits) > INFINITY_BITS
}

/// The pattern with negative zero replaced by zero.
pub open spec fn canonical_bits(bits: u32) -> u32 {
    if bits == SIGN_BIT {
        0
    } else {
        bits
    }
}

/// The order key of a pattern.
pub open spec fn key_of_bits(bits: u32) -> int {
    if bits > SIGN_BIT {
        u32::MAX - bits
    } else {
        magnitude(bits) + SIGN_BIT
    }
}

/// The pattern that a key stands for.
pub open spec fn bits_of_key(key: u32) -> int {
    if key >= SIGN_BIT {
        key - SIGN_BIT
    } else {
        u32::MAX - key
    }
}

/// Whether `key` is the order key of some number.
pub open spec fn is_time_key(key: u32) -> bool {
    &&& u32::MAX - SIGN_BIT - INFINITY_BITS <= key <= SIGN_BIT + INFINITY_BITS
    &&& key != SIGN_BIT - 1
}

/// A run time in seconds.
#[derive(Clone, Copy, Debug, PartialEq, Eq, Structural)]
pub struct Time {
    key: u32,
}

impl Time {
    /// The order key: `a` is a shorter time than `b` exactly if
    /// `a.key() < b.key()`.
    pub closed spec fn key(self) -> u32 {
        self.key
    }

    /// Every time stands for a number.
    #[verifier::type_invariant]
    pub open spec fn wf(self) -> bool {
        is_time_key(self.key())
    }

    /// The time whose single-precision pattern is `bits`, or `None` where the
    /// pattern is not a number.
    pub fn from_bits(bits: u32) -> (time: Option<Time>)
        ensures
            time is None <==> is_nan(bits),
            time matches Some(t) ==> t.wf() && t.key() == key_of_bits(bits),
    {
        if bits > SIGN_BIT {
            if bits - SIGN_BIT > INFINITY_BITS {
                None
            } else {
                Some(Time { key: u32::MAX - bits })
            }
        } else if bits == SIGN_BIT {
            Some(Time { key: SIGN_BIT })
        } else if bits > INFINITY_BITS {
            None
        } else {
            Some(Time { key: bits + SIGN_BIT })
        }
    }

    /// The single-precision pattern of this time. It is a number, and never
    /// negative zero.
    pub fn to_bits(&self) -> (bits: u32)
        ensures
            bits == bits_of_key(self.key()),
            !is_nan(bits),
            bits != SIGN_BIT,
    {
        proof {
            use_type_invariant(self);
        }
        if self.key >= SIGN_BIT {
            self.key - SIGN_BIT
        } else {
            u32::MAX - self.key
        }
    }

    /// The order key as a value.
    pub fn order_key(&self) -> (key: u32)
        ensures
            key == self.key(),
            is_time_key(key),
    {
        proof {
            use_type_invariant(self);
        }
        self.key
    }

    /// Whether this time is strictly shorter than `other`.
    pub fn is_shorter_than(&self, other: &Time) -> (shorter: bool)
        ensures
            shorter == (self.key() < other.key()),
    {
        self.key < other.key
    }

    /// Whether both stand for the same number.
    pub fn same_as(&self, other: &Time) -> (same: bool)
        ensures
            same == (self.key() == other.key()),
            same == (*self == *other),
    {
        self.key == other.key
    }
}

/// Two times with the same key are the same time.
pub proof fn lemma_key_determines_time(a: Time, b: Time)
    ensures
        a.key() == b.key() <==> a == b,
{
}

/// A key is valid exactly if it is the key of a pattern that is a number.
pub proof fn lemma_time_keys_are_keys_of_numbers(key: u32)
    ensures
        is_time_key(key) <==> exists|bits: u32| !is_nan(bits) && key_of_bits(bits) == key,
{
    if is_time_key(key) {
        let bits = bits_of_key(key) as u32;
        assert(!is_nan(bits) && key_of_bits(bits) == key);
    }
}

/// Taking the key of a number and then the pattern of that key gives the
/// number back, with negative zero turned into zero.
pub proof fn lemma_bits_survive_the_key(bits: u32)
    requires
        !is_nan(bits),
    ensures
        is_time_key(key_of_bits(bits) as u32),
        bits_of_key(key_of_bits(bits) as u32) == canonical_bits(bits),
{
}

/// Taking the pattern of a valid key and then its key gives the key back.
pub proof fn lemma_key_survives_the_bits(key: u32)
    requires
        is_time_key(key),
    ensures
        !is_nan(bits_of_key(key) as u32),
        key_of_bits(bits_of_key(key) as u32) == key,
{
}

/// The exponent field of a pattern.
pub open spec fn exponent(bits: u32) -> int {
    magnitude(bits) / 0x80_0000
}

/// The fraction field of a pattern.
pub open spec fn fraction(bits: u32) -> int {
    magnitude(bits) % 0x80_0000
}

/// The size of the number that a pattern stands for, without its sign, in
/// units of 2^-149, the smallest size that a single can have. Infinity is
/// given the size that the next exponent would have.
pub open spec fn scaled_size(bits: u32) -> int {
    if exponent(bits) == 0 {
        fraction(bits)
    } else {
        (0x80_0000 + fraction(bits)) * pow2((exponent(bits) - 1) as nat)
    }
}

/// The number that a pattern stands for, in units of 2^-149.
pub open spec fn scaled_value(bits: u32) -> int {
    if bits >= SIGN_BIT {
        -scaled_size(bits)
    } else {
        scaled_size(bits)
    }
}

/// Of two patterns the one with the larger magnitude stands for the number
/// of the larger size.
pub proof fn lemma_size_grows_with_magnitude(a: u32, b: u32)
    requires
        magnitude(a) < magnitude(b),
    ensures
        0 <= scaled_size(a) < scaled_size(b),
{
    let ea = exponent(a);
    let fa = fraction(a);
    let eb = exponent(b);
    let fb = fraction(b);
    assert(0 <= fa < 0x80_0000 && 0 <= fb < 0x80_0000);
    assert(0 <= ea <= eb);
    if ea == 0 {
        if eb > 0 {
            let pb = pow2((eb - 1) as nat) as int;
            lemma_pow2_pos((eb - 1) as nat);
            lemma_mul_left_inequality(0x80_0000 + fb, 1, pb);
            assert((0x80_0000 + fb) * 1 <= (0x80_0000 + fb) * pb);
        }
    } else {
        let pa = pow2((ea - 1) as nat) as int;
        lemma_pow2_pos((ea - 1) as nat);
        lemma_mul_left_inequality(pa, 0, 0x80_0000 + fa);
        assert(0 <= pa * (0x80_0000 + fa));
        assert(pa * (0x80_0000 + fa) == (0x80_0000 + fa) * pa) by (nonlinear_arith);
        if ea == eb {
            lemma_mul_strict_inequality(0x80_0000 + fa, 0x80_0000 + fb, pa);
        } else {
            let pb = pow2((eb - 1) as nat) as int;
            lemma_pow2_unfold(ea as nat);
            if ea < eb - 1 {
                lemma_pow2_strictly_increases(ea as nat, (eb - 1) as nat);
            }
            assert(2 * pa <= pb);
            lemma_mul_strict_inequality(0x80_0000 + fa, 0x100_0000, pa);
            assert((0x80_0000 + fa) * pa < 0x100_0000 * pa);
            assert(0x100_0000 * pa == 0x80_0000 * (2 * pa)) by (nonlinear_arith);
            lemma_mul_left_inequality(0x80_0000, 2 * pa, pb);
            assert(0x80_0000 * (2 * pa) <= 0x80_0000 * pb);
            lemma_pow2_pos((eb - 1) as nat);
            assert(0x80_0000 * pb <= (0x80_0000 + fb) * pb) by (nonlinear_arith)
                requires
                    0 <= fb,
                    0 < pb,
            ;
        }
    }
}

/// Keys compare exactly as the numbers do: of two patterns that are numbers,
/// one has the smaller key if and only if it stands for the smaller number,
/// and both have the same key if and only if they stand for the same number.
pub proof fn law_keys_order_as_numbers(a: u32, b: u32)
    requires
        !is_nan(a),
        !is_nan(b),
    ensures
        key_of_bits(a) < key_of_bits(b) <==> scaled_value(a) < scaled_value(b),
        key_of_bits(a) == key_of_bits(b) <==> scaled_value(a) == scaled_value(b),
{
    if magnitude(a) < magnitude(b) {
        lemma_size_grows_with_magnitude(a, b);
    }
    if magnitude(b) < magnitude(a) {
        lemma_size_grows_with_magnitude(b, a);
    }
    if magnitude(a) > 0 {
        lemma_size_grows_with_magnitude(0, a);
    }
    if magnitude(b) > 0 {
        lemma_size_grows_with_magnitude(0, b);
    }
    assert(scaled_size(0) == 0);
    assert(magnitude(a) == magnitude(b) ==> scaled_size(a) == scaled_size(b));
    assert(magnitude(a) == 0 ==> scaled_size(a) == 0);
    assert(magnitude(b) == 0 ==> scaled_size(b) == 0);
}

} // verus!
