//! The complement: every digit of the expansion swapped.

use crate::bit::Bit;
use crate::digits::{flip_all, lemma_number_flip};
use crate::repr::{TwoAdic, TwoAdicView};
use std::ops::Not;
use vstd::prelude::*;

verus! {

impl TwoAdicView {
    /// The expansion with every digit swapped: the kept digits swapped, under
    /// the shape that ends in the other digit.
    pub open spec fn complement(self) -> TwoAdicView {
        match self {
            TwoAdicView::OI(prefix) => TwoAdicView::IO(flip_all(prefix)),
            TwoAdicView::II => TwoAdicView::OO,
            TwoAdicView::OO => TwoAdicView::II,
            TwoAdicView::IO(prefix) => TwoAdicView::OI(flip_all(prefix)),
        }
    }
}

/// Swaps every digit of `digits`.
fn flipped(digits: Vec<Bit>) -> (swapped: Vec<Bit>)
    ensures
        swapped@ == flip_all(digits@),
{
    let mut swapped = digits;
    let mut index: usize = 0;
    while index < swapped.len()
        invariant
            index <= swapped.len(),
            swapped.len() == digits.len(),
            forall|k: int| 0 <= k < index ==> swapped@[k] == digits@[k].flip(),
            forall|k: int| index <= k < swapped.len() ==> swapped@[k] == digits@[k],
        decreases swapped.len() - index,
    {
        let digit = swapped[index];
        swapped[index] = digit.not();
        index = index + 1;
    }
    swapped
}

impl vstd::std_specs::ops::NotSpecImpl for TwoAdic {
    /// Nothing is stated through this trait. It would have to name the
    /// result as a `TwoAdic`, vectors and all, and to Verus two vectors with
    /// the same digits are not yet one value. `not` states its result on
    /// views instead.
    open spec fn obeys_not_spec() -> bool {
        false
    }

    open spec fn not_req(self) -> bool {
        true
    }

    open spec fn not_spec(self) -> TwoAdic {
        choose|complement: TwoAdic| complement@ == self@.complement()
    }
}

impl Not for TwoAdic {
    type Output = TwoAdic;

    /// The complement: every digit of the expansion swapped, which stands for
    /// minus the integer, less one.
    fn not(self) -> (complement: TwoAdic)
        ensures
            complement@ == self@.complement(),
            complement@.value() == -self@.value() - 1,
            forall|k: int| 0 <= k ==> complement@.bit(k) == self@.bit(k).flip(),
    {
        proof {
            lemma_complement_value(self@);
        }
        match self {
            TwoAdic::OI(prefix) => TwoAdic::IO(flipped(prefix)),
            TwoAdic::II => TwoAdic::OO,
            TwoAdic::OO => TwoAdic::II,
            TwoAdic::IO(prefix) => TwoAdic::OI(flipped(prefix)),
        }
    }
}

/// The complement of the complement is the value itself.
pub proof fn lemma_complement_involution(x: TwoAdicView)
    ensures
        x.complement().complement() == x,
{
}

/// The complement has at every index the other digit.
pub proof fn lemma_complement_bit(x: TwoAdicView, index: int)
    requires
        0 <= index,
    ensures
        x.complement().bit(index) == x.bit(index).flip(),
{
}

/// The complement stands for minus the integer, less one.
pub proof fn lemma_complement_value(x: TwoAdicView)
    ensures
        x.complement().value() == -x.value() - 1,
{
    lemma_number_flip(x.prefix());
}

} // verus!
