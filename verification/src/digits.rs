//! Finite runs of binary digits, least significant first, and the numbers they
//! stand for.

use crate::bit::Bit;
use vstd::arithmetic::power2::{lemma2_to64, lemma_pow2_pos, lemma_pow2_unfold, pow2};
use vstd::prelude::*;

verus! {

/// What `digit` adds to a number when it stands at `place`.
pub open spec fn weight(digit: Bit, place: nat) -> nat {
    if digit == Bit::I {
        pow2(place)
    } else {
        0
    }
}

/// The number whose binary digits, least significant first, are `digits`.
pub open spec fn number(digits: Seq<Bit>) -> nat
    decreases digits.len(),
{
    if digits.len() == 0 {
        0
    } else {
        number(digits.drop_last()) + weight(digits.last(), (digits.len() - 1) as nat)
    }
}

/// Every digit of `digits` swapped.
pub open spec fn flip_all(digits: Seq<Bit>) -> Seq<Bit> {
    Seq::new(digits.len(), |k: int| digits[k].flip())
}

/// The lowest binary digit of `v`, read in two's complement: its parity.
pub open spec fn low_digit(v: int) -> Bit {
    if v % 2 == 0 {
        Bit::O
    } else {
        Bit::I
    }
}

/// The binary digit of `v` at `index`, read in two's complement: each step up
/// halves `v`, rounding down.
pub open spec fn digit_of_int(v: int, index: nat) -> Bit
    decreases index,
{
    if index == 0 {
        low_digit(v)
    } else {
        digit_of_int(v / 2, (index - 1) as nat)
    }
}

/// Two to the zero is one.
pub(crate) proof fn lemma_pow2_zero()
    ensures
        pow2(0) == 1,
{
    lemma2_to64();
}

/// `n` digits stand for a number below two to the `n`.
pub proof fn lemma_number_bound(digits: Seq<Bit>)
    ensures
        number(digits) < pow2(digits.len()),
    decreases digits.len(),
{
    if digits.len() == 0 {
        lemma_pow2_pos(0);
    } else {
        lemma_number_bound(digits.drop_last());
        lemma_pow2_unfold(digits.len());
    }
}

/// The lowest digit is the number's parity, the digits above it stand for its
/// half.
pub proof fn lemma_number_halves(digits: Seq<Bit>)
    requires
        digits.len() > 0,
    ensures
        number(digits) == digits[0].value() + 2 * number(digits.drop_first()),
    decreases digits.len(),
{
    let lower = digits.drop_last();
    let upper = digits.drop_first();
    if digits.len() == 1 {
        lemma_pow2_zero();
        assert(number(lower) == 0);
    } else {
        lemma_number_halves(lower);
        assert(lower.drop_first() =~= upper.drop_last());
        lemma_pow2_unfold((digits.len() - 1) as nat);
    }
}

/// A run of digits and the run with every digit swapped add up to all ones.
pub proof fn lemma_number_flip(digits: Seq<Bit>)
    ensures
        number(flip_all(digits)) + number(digits) + 1 == pow2(digits.len()),
    decreases digits.len(),
{
    if digits.len() == 0 {
        lemma_pow2_zero();
    } else {
        lemma_number_flip(digits.drop_last());
        assert(flip_all(digits).drop_last() =~= flip_all(digits.drop_last()));
        lemma_pow2_unfold(digits.len());
    }
}

/// Of two runs of one length, the one with the zero at the highest place
/// where they differ stands for the smaller number.
pub proof fn lemma_number_decided_at(low: Seq<Bit>, high: Seq<Bit>, place: int)
    requires
        low.len() == high.len(),
        0 <= place < low.len(),
        low[place] == Bit::O,
        high[place] == Bit::I,
        forall|k: int| place < k < low.len() ==> low[k] == high[k],
    ensures
        number(low) < number(high),
    decreases low.len(),
{
    if place == low.len() - 1 {
        lemma_number_bound(low.drop_last());
    } else {
        lemma_number_decided_at(low.drop_last(), high.drop_last(), place);
    }
}

} // verus!
