//! Making the two-adic integer of a 32-bit integer.

use crate::bit::Bit;
use crate::complement::lemma_complement_value;
use crate::integer::{
    lemma_bit_is_digit_of_value, lemma_from_int_of_value, lemma_from_int_value,
};
use crate::pattern::{
    i32_digit, lemma_i32_digit, lemma_kept_digits_of_pattern, lemma_shift_halves,
    lemma_sign_extension, pattern, sign_digit,
};
use crate::repr::{TwoAdic, TwoAdicView};
use vstd::prelude::*;

verus! {

/// The digit at `index` of the 32-bit two's-complement pattern of `value`.
fn digit_at(value: i32, index: u32) -> (digit: Bit)
    requires
        index < 32,
    ensures
        digit == i32_digit(value, index),
{
    if (value >> index) & 1 == 1 {
        Bit::I
    } else {
        Bit::O
    }
}

impl vstd::std_specs::convert::FromSpecImpl<i32> for TwoAdic {
    /// Nothing is stated through this trait. It would have to name the
    /// result as a `TwoAdic`, vectors and all, and to Verus two vectors with
    /// the same digits are not yet one value. `from` states its result on
    /// views instead.
    open spec fn obeys_from_spec() -> bool {
        false
    }

    open spec fn from_spec(value: i32) -> TwoAdic {
        choose|made: TwoAdic| made@ == TwoAdicView::from_int(value as int)
    }
}

impl From<i32> for TwoAdic {
    /// The two-adic integer that stands for `value`.
    ///
    /// Reads the 32-bit two's-complement pattern of `value` from the top:
    /// passes the leading run of sign digits, drops the first digit that
    /// differs, which is the delimiter, and keeps the digits below it. -1 and
    /// 0 are all sign and have their own shapes.
    ///
    /// The expansion made begins with the pattern and goes on with the sign
    /// for ever.
    fn from(value: i32) -> (made: TwoAdic)
        ensures
            made@ == TwoAdicView::from_int(value as int),
            made@.value() == value,
            made@.first(32) == pattern(value),
            forall|k: int| 32 <= k ==> made@.bit(k) == sign_digit(value),
            value == -1 ==> made@ == TwoAdicView::II,
            value == 0 ==> made@ == TwoAdicView::OO,
    {
        proof {
            lemma_from_int_value(value as int);
            lemma_from_int_pattern(value);
            lemma_shift_halves(value);
        }
        if value == -1 {
            return TwoAdic::II;
        }
        if value == 0 {
            return TwoAdic::OO;
        }
        let sign = digit_at(value, 31);
        let mut top: u32 = 30;
        while digit_at(value, top) == sign
            invariant
                top <= 30,
                value != 0,
                value != -1,
                sign == i32_digit(value, 31),
                (value >> ((top + 1) as u32)) == (value >> 31u32),
            decreases top,
        {
            proof {
                // The run of sign digits reaches down to `top`. It cannot
                // reach the bottom: the value would be all sign.
                let up = (top + 1) as u32;
                assert((value >> top) == (value >> 31u32)) by (bit_vector)
                    requires
                        top <= 30,
                        up == top + 1,
                        (value >> up) == (value >> 31u32),
                        ((value >> top) & 1 == 1) == ((value >> 31u32) & 1 == 1),
                ;
                lemma_shift_halves(value);
            }
            top = top - 1;
        }
        let mut prefix: Vec<Bit> = Vec::new();
        let mut index: u32 = 0;
        while index < top
            invariant
                index <= top <= 30,
                prefix@ == Seq::new(index as nat, |k: int| i32_digit(value, k as u32)),
            decreases top - index,
        {
            prefix.push(digit_at(value, index));
            index = index + 1;
        }
        proof {
            lemma_kept_digits_of_pattern(value, top);
        }
        if value < 0 {
            TwoAdic::OI(prefix)
        } else {
            TwoAdic::IO(prefix)
        }
    }
}

/// The two-adic integer of a 32-bit integer begins with its pattern and goes
/// on with its sign.
pub proof fn lemma_from_int_pattern(v: i32)
    ensures
        TwoAdicView::from_int(v as int).first(32) == pattern(v),
        forall|k: int| 32 <= k ==> TwoAdicView::from_int(v as int).bit(k) == sign_digit(v),
{
    let x = TwoAdicView::from_int(v as int);
    lemma_from_int_value(v as int);
    assert forall|k: int| 0 <= k implies x.bit(k) == (if k < 32 {
        i32_digit(v, k as u32)
    } else {
        sign_digit(v)
    }) by {
        lemma_bit_is_digit_of_value(x, k as nat);
        if k < 32 {
            lemma_i32_digit(v, k as u32);
        } else {
            lemma_sign_extension(v, k as nat);
        }
    }
}

/// The complement of the two-adic integer of a 32-bit integer is the two-adic
/// integer of its bitwise complement, and so begins with the pattern of that.
pub proof fn lemma_complement_pattern(v: i32)
    ensures
        TwoAdicView::from_int(v as int).complement() == TwoAdicView::from_int((!v) as int),
        TwoAdicView::from_int(v as int).complement().first(32) == pattern(!v),
{
    let x = TwoAdicView::from_int(v as int);
    assert(!v == -v - 1) by (bit_vector);
    lemma_from_int_value(v as int);
    lemma_complement_value(x);
    lemma_from_int_of_value(x.complement());
    lemma_from_int_pattern(!v);
}

} // verus!
