//! Equality and order of two-adic integers.

use crate::bit::{int_order, Bit};
use crate::digits::{lemma_number_decided_at, number};
use crate::integer::{lemma_from_int_value, lemma_value_is_injective};
use crate::repr::{
    lemma_digits_determine, lemma_first_is_twos_complement, lemma_value_range, TwoAdic,
    TwoAdicView,
};
use std::cmp::Ordering;
use vstd::prelude::*;

verus! {

impl TwoAdicView {
    /// How `self` stands to `other`: as the integers they stand for.
    pub open spec fn order(self, other: TwoAdicView) -> Ordering {
        int_order(self.value(), other.value())
    }
}

/// Whether two runs of digits are the same.
fn same_digits(left: &Vec<Bit>, right: &Vec<Bit>) -> (same: bool)
    ensures
        same == (left@ == right@),
{
    if left.len() != right.len() {
        return false;
    }
    let mut index: usize = 0;
    while index < left.len()
        invariant
            index <= left.len(),
            left.len() == right.len(),
            forall|k: int| 0 <= k < index ==> left@[k] == right@[k],
        decreases left.len() - index,
    {
        if left[index] != right[index] {
            return false;
        }
        index = index + 1;
    }
    assert(left@ =~= right@);
    true
}

impl vstd::std_specs::cmp::PartialEqSpecImpl for TwoAdic {
    open spec fn obeys_eq_spec() -> bool {
        true
    }

    /// Equal are two values of one shape with the same kept digits.
    open spec fn eq_spec(&self, other: &TwoAdic) -> bool {
        self@ == other@
    }
}

impl PartialEq for TwoAdic {
    /// Whether the two values have one shape and the same kept digits.
    fn eq(&self, other: &TwoAdic) -> (equal: bool) {
        match (self, other) {
            (TwoAdic::OI(left), TwoAdic::OI(right)) => same_digits(left, right),
            (TwoAdic::II, TwoAdic::II) => true,
            (TwoAdic::OO, TwoAdic::OO) => true,
            (TwoAdic::IO(left), TwoAdic::IO(right)) => same_digits(left, right),
            _ => false,
        }
    }
}

impl Eq for TwoAdic {}

/// Reads two expansions that end in the same digit from the top down to the
/// first place where they differ, and gives the digit that `left` has there:
/// `None` where they differ nowhere.
///
/// Above the longer run of kept digits and its delimiter both expansions have
/// reached their common end, so the reading starts at that delimiter: the
/// shorter run counts as filled up with the digits that follow it. The value
/// with the zero at the place found stands for the smaller integer.
fn deciding_digit(left: &TwoAdic, right: &TwoAdic) -> (digit: Option<Bit>)
    requires
        left@.tail() == right@.tail(),
    ensures
        digit is None <==> left@.value() == right@.value(),
        digit == Some(Bit::O) <==> left@.value() < right@.value(),
        digit == Some(Bit::I) <==> left@.value() > right@.value(),
{
    let top = if left.kept() < right.kept() {
        right.kept()
    } else {
        left.kept()
    };
    let ghost width = (top + 1) as nat;
    proof {
        // Both are written in two's complement of one width, so they stand to
        // each other as the numbers that their first digits write.
        lemma_first_is_twos_complement(left@, width);
        lemma_first_is_twos_complement(right@, width);
    }
    let mut index = top;
    loop
        invariant
            index <= top,
            width == top + 1,
            forall|k: int| index < k ==> left@.bit(k) == right@.bit(k),
            number(left@.first(width)) - left@.value() == number(right@.first(width))
                - right@.value(),
        decreases index,
    {
        let ours = left.bit(index);
        let theirs = right.bit(index);
        if ours != theirs {
            proof {
                if ours == Bit::O {
                    lemma_number_decided_at(
                        left@.first(width),
                        right@.first(width),
                        index as int,
                    );
                } else {
                    lemma_number_decided_at(
                        right@.first(width),
                        left@.first(width),
                        index as int,
                    );
                }
            }
            return Some(ours);
        }
        if index == 0 {
            proof {
                lemma_digits_determine(left@, right@);
            }
            return None;
        }
        index = index - 1;
    }
}

/// The order that the deciding digit of the left value stands for.
fn order_of(deciding: Option<Bit>) -> (order: Ordering)
    ensures
        order == (match deciding {
            None => Ordering::Equal,
            Some(Bit::O) => Ordering::Less,
            Some(Bit::I) => Ordering::Greater,
        }),
{
    match deciding {
        None => Ordering::Equal,
        Some(Bit::O) => Ordering::Less,
        Some(Bit::I) => Ordering::Greater,
    }
}

impl TwoAdic {
    /// Compares two values as the integers they stand for.
    ///
    /// Values of different shapes are ordered by shape alone: `OI` below `II`
    /// below `OO` below `IO`. Two values of one shape are read digit by digit
    /// from the top, the shorter one filled up with the digit both end in.
    pub fn cmp(&self, other: &TwoAdic) -> (order: Ordering)
        ensures
            order == self@.order(other@),
            order == Ordering::Equal <==> self@ == other@,
    {
        proof {
            lemma_value_range(self@);
            lemma_value_range(other@);
            lemma_order_is_total(self@, other@);
        }
        match self {
            TwoAdic::OI(_) => match other {
                TwoAdic::OI(_) => order_of(deciding_digit(self, other)),
                TwoAdic::II => Ordering::Less,
                TwoAdic::OO => Ordering::Less,
                TwoAdic::IO(_) => Ordering::Less,
            },
            TwoAdic::II => match other {
                TwoAdic::OI(_) => Ordering::Greater,
                TwoAdic::II => Ordering::Equal,
                TwoAdic::OO => Ordering::Less,
                TwoAdic::IO(_) => Ordering::Less,
            },
            TwoAdic::OO => match other {
                TwoAdic::OI(_) => Ordering::Greater,
                TwoAdic::II => Ordering::Greater,
                TwoAdic::OO => Ordering::Equal,
                TwoAdic::IO(_) => Ordering::Less,
            },
            TwoAdic::IO(_) => match other {
                TwoAdic::OI(_) => Ordering::Greater,
                TwoAdic::II => Ordering::Greater,
                TwoAdic::OO => Ordering::Greater,
                TwoAdic::IO(_) => order_of(deciding_digit(self, other)),
            },
        }
    }
}

impl vstd::std_specs::cmp::PartialOrdSpecImpl for TwoAdic {
    open spec fn obeys_partial_cmp_spec() -> bool {
        true
    }

    /// Every two values are comparable.
    open spec fn partial_cmp_spec(&self, other: &TwoAdic) -> Option<Ordering> {
        Some(self@.order(other@))
    }
}

impl PartialOrd for TwoAdic {
    /// What `cmp` gives: every two values are comparable.
    fn partial_cmp(&self, other: &TwoAdic) -> (order: Option<Ordering>) {
        Some(self.cmp(other))
    }
}

/// The two-adic integers made of two integers stand to each other as the
/// integers do: where the first integer is not above the second, the
/// first value is not above the second.
pub proof fn lemma_order_of_integers(i: int, j: int)
    ensures
        TwoAdicView::from_int(i).order(TwoAdicView::from_int(j)) == int_order(i, j),
        i <= j ==> TwoAdicView::from_int(i).order(TwoAdicView::from_int(j)) != Ordering::Greater,
{
    lemma_from_int_value(i);
    lemma_from_int_value(j);
}

/// The order is transitive.
pub proof fn lemma_order_is_transitive(x: TwoAdicView, y: TwoAdicView, z: TwoAdicView)
    requires
        x.order(y) != Ordering::Greater,
        y.order(z) != Ordering::Greater,
    ensures
        x.order(z) != Ordering::Greater,
        x.order(y) == Ordering::Less || y.order(z) == Ordering::Less ==> x.order(z)
            == Ordering::Less,
{
}

/// The order is total and agrees with equality: two values compare as equal
/// exactly when they are the same, and one is less exactly when the other is
/// greater.
pub proof fn lemma_order_is_total(x: TwoAdicView, y: TwoAdicView)
    ensures
        x.order(y) == Ordering::Equal <==> x == y,
        x.order(y) == Ordering::Less <==> y.order(x) == Ordering::Greater,
{
    if x.value() == y.value() {
        lemma_value_is_injective(x, y);
    }
}

/// Values of different shapes are ordered by shape alone: `OI` below `II`
/// below `OO` below `IO`.
pub proof fn lemma_order_of_shapes(x: TwoAdicView, y: TwoAdicView)
    ensures
        x is OI && !(y is OI) ==> x.order(y) == Ordering::Less,
        x is II && (y is OO || y is IO) ==> x.order(y) == Ordering::Less,
        x is OO && y is IO ==> x.order(y) == Ordering::Less,
{
    lemma_value_range(x);
    lemma_value_range(y);
}

} // verus!
