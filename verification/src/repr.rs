//! The two-adic integer: its four shapes, the digits it expands to and the
//! integer it stands for.

use crate::bit::Bit;
use crate::digits::{lemma_number_bound, lemma_pow2_zero, number, weight};
use vstd::arithmetic::power2::{lemma_pow2_unfold, pow2};
use vstd::prelude::*;

verus! {

/// A two-adic integer: a binary expansion, least significant digit first,
/// that is constant from some digit on.
///
/// The digits kept in `OI` and `IO` are those below the last digit that differs
/// from the constant end. That digit, the delimiter, is not kept: the shape
/// says what it is. Any run of digits may be kept, the empty one too, and each
/// expansion has exactly one shape and one run of kept digits.
#[derive(Debug)]
pub enum TwoAdic {
    /// The kept digits, a zero, then ones for ever: an integer of -2 or less.
    OI(Vec<Bit>),
    /// Ones for ever: -1.
    II,
    /// Zeros for ever: 0.
    OO,
    /// The kept digits, a one, then zeros for ever: an integer of 1 or more.
    IO(Vec<Bit>),
}

/// The mathematical value of a [`TwoAdic`]: the same four shapes over
/// sequences.
#[verifier::ext_equal]
pub enum TwoAdicView {
    /// The kept digits, a zero, then ones for ever.
    OI(Seq<Bit>),
    /// Ones for ever.
    II,
    /// Zeros for ever.
    OO,
    /// The kept digits, a one, then zeros for ever.
    IO(Seq<Bit>),
}

impl View for TwoAdic {
    type V = TwoAdicView;

    open spec fn view(&self) -> TwoAdicView {
        match self {
            TwoAdic::OI(prefix) => TwoAdicView::OI(prefix@),
            TwoAdic::II => TwoAdicView::II,
            TwoAdic::OO => TwoAdicView::OO,
            TwoAdic::IO(prefix) => TwoAdicView::IO(prefix@),
        }
    }
}

impl TwoAdicView {
    /// The digits kept below the delimiter; none for -1 and 0.
    pub open spec fn prefix(self) -> Seq<Bit> {
        match self {
            TwoAdicView::OI(prefix) => prefix,
            TwoAdicView::II => Seq::empty(),
            TwoAdicView::OO => Seq::empty(),
            TwoAdicView::IO(prefix) => prefix,
        }
    }

    /// The digit that the expansion ends in, repeated for ever.
    pub open spec fn tail(self) -> Bit {
        match self {
            TwoAdicView::OI(_) => Bit::I,
            TwoAdicView::II => Bit::I,
            TwoAdicView::OO => Bit::O,
            TwoAdicView::IO(_) => Bit::O,
        }
    }

    /// The digit at `index` of the expansion, counted from the least
    /// significant: the kept digits, then the delimiter, then the tail.
    pub open spec fn bit(self, index: int) -> Bit
        recommends
            0 <= index,
    {
        match self {
            TwoAdicView::OI(prefix) => if index < prefix.len() {
                prefix[index]
            } else if index == prefix.len() {
                Bit::O
            } else {
                Bit::I
            },
            TwoAdicView::II => Bit::I,
            TwoAdicView::OO => Bit::O,
            TwoAdicView::IO(prefix) => if index < prefix.len() {
                prefix[index]
            } else if index == prefix.len() {
                Bit::I
            } else {
                Bit::O
            },
        }
    }

    /// The first `count` digits of the expansion.
    pub open spec fn first(self, count: nat) -> Seq<Bit> {
        Seq::new(count, |k: int| self.bit(k))
    }

    /// The integer that the expansion stands for.
    ///
    /// The kept digits count for the number they write and a delimiter of one
    /// for its power of two. The ones of a tail, read in two's complement, all
    /// together count for minus the power of two of the place where they
    /// begin.
    pub open spec fn value(self) -> int {
        match self {
            TwoAdicView::OI(prefix) => number(prefix) - 2 * pow2(prefix.len()),
            TwoAdicView::II => -1,
            TwoAdicView::OO => 0,
            TwoAdicView::IO(prefix) => (number(prefix) + pow2(prefix.len())) as int,
        }
    }

    /// The two-adic integer with the digits `digits`, which are the same from
    /// `end` upwards.
    pub open spec fn with_digits(digits: spec_fn(int) -> Bit, end: nat) -> TwoAdicView
        decreases end,
    {
        if end == 0 {
            if digits(0) == Bit::I {
                TwoAdicView::II
            } else {
                TwoAdicView::OO
            }
        } else if digits(end - 1) == digits(end as int) {
            Self::with_digits(digits, (end - 1) as nat)
        } else if digits(end as int) == Bit::I {
            TwoAdicView::OI(Seq::new((end - 1) as nat, digits))
        } else {
            TwoAdicView::IO(Seq::new((end - 1) as nat, digits))
        }
    }
}

impl Clone for TwoAdic {
    /// A copy with the same shape and digits.
    fn clone(&self) -> (copy: TwoAdic)
        ensures
            copy@ == self@,
    {
        match self {
            TwoAdic::OI(prefix) => TwoAdic::OI(prefix.clone()),
            TwoAdic::II => TwoAdic::II,
            TwoAdic::OO => TwoAdic::OO,
            TwoAdic::IO(prefix) => TwoAdic::IO(prefix.clone()),
        }
    }
}

impl TwoAdic {
    /// How many digits are kept below the delimiter.
    pub(crate) fn kept(&self) -> (count: usize)
        ensures
            count == self@.prefix().len(),
    {
        match self {
            TwoAdic::OI(prefix) => prefix.len(),
            TwoAdic::II => 0,
            TwoAdic::OO => 0,
            TwoAdic::IO(prefix) => prefix.len(),
        }
    }

    /// The digit that the expansion ends in.
    pub(crate) fn tail(&self) -> (digit: Bit)
        ensures
            digit == self@.tail(),
    {
        match self {
            TwoAdic::OI(_) => Bit::I,
            TwoAdic::II => Bit::I,
            TwoAdic::OO => Bit::O,
            TwoAdic::IO(_) => Bit::O,
        }
    }

    /// The digit at `index` of the expansion, counted from the least
    /// significant.
    pub fn bit(&self, index: usize) -> (digit: Bit)
        ensures
            digit == self@.bit(index as int),
    {
        match self {
            TwoAdic::OI(prefix) => if index < prefix.len() {
                prefix[index]
            } else if index == prefix.len() {
                Bit::O
            } else {
                Bit::I
            },
            TwoAdic::II => Bit::I,
            TwoAdic::OO => Bit::O,
            TwoAdic::IO(prefix) => if index < prefix.len() {
                prefix[index]
            } else if index == prefix.len() {
                Bit::I
            } else {
                Bit::O
            },
        }
    }
}

/// The shape fixes the range: `OI` stands for -2 and below, `II` for -1, `OO`
/// for 0 and `IO` for 1 and above.
pub proof fn lemma_value_range(x: TwoAdicView)
    ensures
        x is OI <==> x.value() <= -2,
        x is II <==> x.value() == -1,
        x is OO <==> x.value() == 0,
        x is IO <==> x.value() >= 1,
{
    lemma_number_bound(x.prefix());
}

/// Two values with the same digit at every index are the same: no expansion
/// has two shapes, or two runs of kept digits.
pub proof fn lemma_digits_determine(x: TwoAdicView, y: TwoAdicView)
    requires
        forall|k: int| 0 <= k ==> x.bit(k) == y.bit(k),
    ensures
        x == y,
{
    let m = x.prefix().len() as int;
    let n = y.prefix().len() as int;
    // Far enough up both have reached their tails: they end in one digit.
    assert(x.bit(m + n + 1) == y.bit(m + n + 1));
    // A delimiter differs from the tail above it, so neither delimiter can
    // stand in the tail of the other value: they stand at one place.
    assert(x.bit(m) == y.bit(m));
    assert(x.bit(n) == y.bit(n));
    // Below that place the kept digits are the digits of the expansion.
    assert forall|k: int| 0 <= k < m implies x.prefix()[k] == y.prefix()[k] by {
        assert(x.bit(k) == y.bit(k));
    }
}

/// Every expansion that is constant from some digit on is the expansion of a
/// two-adic integer: the four shapes leave none out.
pub proof fn lemma_with_digits(digits: spec_fn(int) -> Bit, end: nat)
    requires
        forall|k: int| end <= k ==> #[trigger] digits(k) == digits(end as int),
    ensures
        forall|k: int|
            0 <= k ==> #[trigger] TwoAdicView::with_digits(digits, end).bit(k) == digits(k),
    decreases end,
{
    if end > 0 && digits(end - 1) == digits(end as int) {
        lemma_with_digits(digits, (end - 1) as nat);
    }
}

/// The first `count` digits, where they reach past the delimiter, write the
/// integer in two's complement of that width: the integer itself from zero up,
/// and two to the `count` more below zero.
pub proof fn lemma_first_is_twos_complement(x: TwoAdicView, count: nat)
    requires
        count > x.prefix().len(),
    ensures
        number(x.first(count)) == x.value() + (if x.tail() == Bit::I {
            pow2(count) as int
        } else {
            0
        }),
    decreases count,
{
    let digits = x.first(count);
    let below = (count - 1) as nat;
    assert(digits.drop_last() =~= x.first(below));
    assert(number(digits) == number(x.first(below)) + weight(x.bit(below as int), below));
    lemma_pow2_unfold(count);
    if below == x.prefix().len() {
        assert(x.first(below) =~= x.prefix());
        lemma_pow2_zero();
    } else {
        lemma_first_is_twos_complement(x, below);
    }
}

} // verus!
