//! Order on IEEE 754 binary64 bit patterns.
//!
//! A real number enters the library as the 64-bit pattern of its binary64
//! representation: one sign bit, then eleven exponent bits and fifty-two
//! fraction bits, which together form the magnitude. Among patterns of one
//! sign, greater magnitude means greater absolute value, so numeric order can
//! be decided on the integers alone.
use vstd::prelude::*;

verus! {

/// The pattern whose only set bit is the sign: negative zero.
pub const SIGN: u64 = 0x8000_0000_0000_0000;

/// Positive infinity. Every greater magnitude is not a number.
pub const INFINITY: u64 = 0x7FF0_0000_0000_0000;

/// The greatest finite value.
pub const LARGEST: u64 = 0x7FEF_FFFF_FFFF_FFFF;

/// Machine epsilon: the gap between one and the next greater value, 2^-52.
pub const EPSILON: u64 = 0x3CB0_0000_0000_0000;

/// The pattern with its sign bit cleared.
pub open spec fn magnitude(w: u64) -> int {
    if w >= SIGN {
        w - SIGN
    } else {
        w as int
    }
}

/// Whether the pattern stands for no number.
pub open spec fn nan(w: u64) -> bool {
    magnitude(w) > INFINITY
}

/// An integer that orders patterns as the numbers they stand for are ordered.
/// Both zeros have rank zero. The rank of a pattern that is not a number has
/// no meaning.
pub open spec fn rank(w: u64) -> int {
    if w >= SIGN {
        -magnitude(w)
    } else {
        magnitude(w)
    }
}

/// Numeric `a < b`: false whenever either side is not a number.
pub open spec fn below(a: u64, b: u64) -> bool {
    !nan(a) && !nan(b) && rank(a) < rank(b)
}

/// Numeric `a <= b`: false whenever either side is not a number.
pub open spec fn at_most(a: u64, b: u64) -> bool {
    !nan(a) && !nan(b) && rank(a) <= rank(b)
}

/// Whether no pattern of the sequence is not a number.
pub open spec fn all_numbers(s: Seq<u64>) -> bool {
    forall|i: int| 0 <= i < s.len() ==> !nan(#[trigger] s[i])
}

/// Tells whether `w` is not a number.
pub fn is_nan(w: u64) -> (r: bool)
    ensures
        r == nan(w),
{
    if w >= SIGN {
        w - SIGN > INFINITY
    } else {
        w > INFINITY
    }
}

/// Decides numeric `a < b`.
pub fn less(a: u64, b: u64) -> (r: bool)
    ensures
        r == below(a, b),
{
    if is_nan(a) || is_nan(b) {
        false
    } else if a >= SIGN {
        if b >= SIGN {
            a > b
        } else {
            a > SIGN || b > 0
        }
    } else {
        if b >= SIGN {
            false
        } else {
            a < b
        }
    }
}

/// Decides numeric `a <= b`.
pub fn less_or_equal(a: u64, b: u64) -> (r: bool)
    ensures
        r == at_most(a, b),
{
    if is_nan(a) || is_nan(b) {
        false
    } else if a >= SIGN {
        if b >= SIGN {
            a >= b
        } else {
            true
        }
    } else {
        if b >= SIGN {
            a == 0 && b == SIGN
        } else {
            a <= b
        }
    }
}

/// On numbers, `below` is a strict order that leaves only patterns of equal
/// rank unordered, and `at_most` is its reflexive closure.
pub proof fn lemma_order(a: u64, b: u64, c: u64)
    requires
        !nan(a),
        !nan(b),
        !nan(c),
    ensures
        !below(a, a),
        below(a, b) && below(b, c) ==> below(a, c),
        below(a, b) || below(b, a) || rank(a) == rank(b),
        at_most(a, b) <==> !below(b, a),
        rank(a) == rank(b) <==> a == b || (magnitude(a) == 0 && magnitude(b) == 0),
{
}

} // verus!
