//! Order keys of single-precision numbers.
//!
//! A single-precision number is a sign bit and 31 bits of magnitude, and
//! among numbers of one sign the one with the larger magnitude bits is the
//! larger in absolute value.  Its key is therefore the magnitude bits, taken
//! negative where the sign bit is set: keys compare as the numbers do, and
//! both zeros get key 0.  Bit patterns above that of infinity are not
//! numbers and have no place in the order.

use vstd::prelude::*;

verus! {

/// The bit that holds the sign.
pub const SIGN_BIT: u32 = 0x8000_0000;

/// The key of infinity: the largest key of a number.
pub const INFINITY: i32 = 0x7f80_0000;

/// The magnitude bits of a pattern.
pub open spec fn magnitude(bits: u32) -> int {
    if bits >= SIGN_BIT {
        bits - SIGN_BIT
    } else {
        bits as int
    }
}

/// The pattern is that of a number: its magnitude is at most infinity's.
pub open spec fn is_number(bits: u32) -> bool {
    magnitude(bits) <= INFINITY
}

/// The key of a pattern: its magnitude, negative where the sign bit is set.
pub open spec fn key_spec(bits: u32) -> int {
    if bits >= SIGN_BIT {
        -magnitude(bits)
    } else {
        magnitude(bits)
    }
}

/// The key nearest to `k` that is the key of a number.
pub open spec fn clamped(k: i32) -> int {
    if k > INFINITY {
        INFINITY as int
    } else if k < -INFINITY {
        -INFINITY
    } else {
        k as int
    }
}

/// The pattern of the number whose key is nearest to `k`; for key 0 the
/// positive zero.
pub open spec fn bits_spec(k: i32) -> u32 {
    if clamped(k) >= 0 {
        clamped(k) as u32
    } else {
        (SIGN_BIT - clamped(k)) as u32
    }
}

/// Whether the pattern is that of a number.
pub fn bits_are_number(bits: u32) -> (yes: bool)
    ensures
        yes == is_number(bits),
{
    if bits >= SIGN_BIT {
        bits - SIGN_BIT <= INFINITY as u32
    } else {
        bits <= INFINITY as u32
    }
}

/// The key of a bit pattern.
pub fn key_of_bits(bits: u32) -> (k: i32)
    ensures
        k == key_spec(bits),
{
    if bits >= SIGN_BIT {
        let magnitude = bits - SIGN_BIT;
        if magnitude == 0 {
            0
        } else {
            -((magnitude - 1) as i32) - 1
        }
    } else {
        bits as i32
    }
}

/// The bit pattern of the number whose key is nearest to `k`; for key 0 the
/// positive zero.
pub fn bits_of_key(k: i32) -> (bits: u32)
    ensures
        bits == bits_spec(k),
{
    if k >= 0 {
        if k > INFINITY {
            INFINITY as u32
        } else {
            k as u32
        }
    } else if k < -INFINITY {
        SIGN_BIT + INFINITY as u32
    } else {
        SIGN_BIT + (-k) as u32
    }
}

/// Keys order the patterns of one sign by magnitude, put every pattern with
/// the sign bit at or below every pattern without, and tell two patterns
/// apart unless both are zeros.
pub proof fn lemma_keys_order(a: u32, b: u32)
    ensures
        a < SIGN_BIT && b < SIGN_BIT ==> (key_spec(a) < key_spec(b) <==> a < b),
        a >= SIGN_BIT && b >= SIGN_BIT ==> (key_spec(a) < key_spec(b) <==> a > b),
        a >= SIGN_BIT && b < SIGN_BIT ==> key_spec(a) <= 0 <= key_spec(b),
        key_spec(a) == key_spec(b) ==> a == b || (magnitude(a) == 0 && magnitude(b) == 0),
        -0x7fff_ffff <= key_spec(a) <= 0x7fff_ffff,
{
}

/// Going to the key and back gives the pattern of a number again, but for
/// the negative zero, which comes back positive; and going to the pattern and
/// back gives the key again, brought into the range of numbers.
pub proof fn lemma_round_trip(bits: u32, k: i32)
    ensures
        is_number(bits) && bits != SIGN_BIT ==> bits_spec(key_spec(bits) as i32) == bits,
        bits_spec(key_spec(SIGN_BIT) as i32) == 0,
        is_number(bits_spec(k)),
        key_spec(bits_spec(k)) == clamped(k),
{
}

} // verus!
