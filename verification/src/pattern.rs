//! The 32-bit two's-complement pattern of an integer, and how its digits are
//! the digits of the integer.

use crate::bit::Bit;
use crate::digits::{digit_of_int, low_digit};
use crate::integer::kept_digits;
use vstd::prelude::*;

verus! {

/// The digit at `index` of the 32-bit two's-complement pattern of `v`.
pub open spec fn i32_digit(v: i32, index: u32) -> Bit {
    if (v >> index) & 1 == 1 {
        Bit::I
    } else {
        Bit::O
    }
}

/// The 32-bit two's-complement pattern of `v`, least significant digit first.
pub open spec fn pattern(v: i32) -> Seq<Bit> {
    Seq::new(32, |k: int| i32_digit(v, k as u32))
}

/// The digit that the sign of `v` repeats: one where `v` is below zero.
pub open spec fn sign_digit(v: i32) -> Bit {
    if v < 0 {
        Bit::I
    } else {
        Bit::O
    }
}

/// A shift to the right by one halves a 32-bit integer, rounding down, and
/// its lowest digit is its parity; a shift by 31 leaves the sign alone.
pub(crate) proof fn lemma_shift_halves(v: i32)
    ensures
        (v >> 1u32) == (v as int) / 2,
        i32_digit(v, 0) == low_digit(v as int),
        i32_digit(v, 31) == sign_digit(v),
        (v >> 0u32) == v,
        (v >> 31u32) == (if v < 0 {
            -1i32
        } else {
            0i32
        }),
{
    assert(v == 2 * (v >> 1u32) + (v & 1) && 0 <= (v & 1) <= 1) by (bit_vector);
    assert((v >> 0u32) == v) by (bit_vector);
    assert((v >> 31u32) == (if v < 0 {
        -1i32
    } else {
        0i32
    })) by (bit_vector);
    assert((-1i32) & 1 == 1 && 0i32 & 1 == 0) by (bit_vector);
}

/// The digits of the halved integer are the digits one place up.
pub(crate) proof fn lemma_shift_digits(v: i32, index: u32)
    requires
        index < 31,
    ensures
        i32_digit(v >> 1u32, index) == i32_digit(v, (index + 1) as u32),
        ((v >> 1u32) >> index) == (v >> ((index + 1) as u32)),
        ((v >> 1u32) >> 31u32) == (v >> 31u32),
{
    let up = (index + 1) as u32;
    assert(((v >> 1u32) >> index) == (v >> up)) by (bit_vector)
        requires
            index < 31,
            up == index + 1,
    ;
    assert(((v >> 1u32) >> 31u32) == (v >> 31u32)) by (bit_vector);
}

/// The digits of the 32-bit pattern are the digits of the integer.
pub proof fn lemma_i32_digit(v: i32, index: u32)
    requires
        index < 32,
    ensures
        i32_digit(v, index) == digit_of_int(v as int, index as nat),
    decreases index,
{
    lemma_shift_halves(v);
    if index > 0 {
        let below = (index - 1) as u32;
        lemma_shift_digits(v, below);
        lemma_i32_digit(v >> 1u32, below);
    }
}

/// Where the 32-bit pattern is all sign from `start` upwards, the integer's
/// digits are its sign from there on, for ever.
pub(crate) proof fn lemma_sign_from(v: i32, start: u32, index: nat)
    requires
        start <= 31,
        start <= index,
        (v >> start) == (v >> 31u32),
    ensures
        digit_of_int(v as int, index) == sign_digit(v),
    decreases index,
{
    let half = v >> 1u32;
    lemma_shift_halves(v);
    if start > 0 {
        lemma_shift_digits(v, (start - 1) as u32);
        lemma_sign_from(half, (start - 1) as u32, (index - 1) as nat);
    } else if index > 0 {
        lemma_sign_from(half, 0, (index - 1) as nat);
    }
}

/// From the sign digit of the 32-bit pattern upwards the integer's digits
/// repeat its sign.
pub proof fn lemma_sign_extension(v: i32, index: nat)
    requires
        index >= 31,
    ensures
        digit_of_int(v as int, index) == sign_digit(v),
{
    lemma_sign_from(v, 31, index);
}

/// Where `top` is the highest place at which the 32-bit pattern of `v`
/// differs from its sign, the digits to keep of `v` are those of the pattern
/// below `top`.
pub(crate) proof fn lemma_kept_digits_of_pattern(v: i32, top: u32)
    requires
        top <= 30,
        (v >> ((top + 1) as u32)) == (v >> 31u32),
        i32_digit(v, top) != sign_digit(v),
    ensures
        v != 0,
        v != -1,
        kept_digits(v as int) == Seq::new(top as nat, |k: int| i32_digit(v, k as u32)),
    decreases top,
{
    let half = v >> 1u32;
    lemma_shift_halves(v);
    if top > 0 {
        let below = (top - 1) as u32;
        lemma_shift_digits(v, below);
        lemma_shift_digits(v, top);
        lemma_kept_digits_of_pattern(half, below);
        // The lowest digit of `v`, then the digits kept of its half, which
        // are the digits of `v` one place up.
        let of_half = Seq::new(below as nat, |k: int| i32_digit(half, k as u32));
        let of_v = Seq::new(top as nat, |k: int| i32_digit(v, k as u32));
        assert forall|k: int| 0 <= k < below implies of_half[k] == of_v[k + 1] by {
            lemma_shift_digits(v, k as u32);
        }
        assert(seq![low_digit(v as int)] + of_half =~= of_v);
    }
}

} // verus!
