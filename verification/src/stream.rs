//! Reading the digits of a two-adic integer one after the other.

use crate::bit::Bit;
use crate::repr::{TwoAdic, TwoAdicView};
use vstd::prelude::*;

verus! {

/// A cursor over the digits of a two-adic integer, least significant first.
///
/// The expansion never ends, so neither does the cursor: `next` always has a
/// digit to give. It borrows the value and holds nothing but a place in it.
pub struct Bits<'a> {
    source: &'a TwoAdic,
    /// The place in the kept digits, while the cursor is at or below the
    /// delimiter.
    place: usize,
    /// Whether the cursor has passed the delimiter.
    in_tail: bool,
    /// How many digits were read.
    read: Ghost<nat>,
}

impl<'a> Bits<'a> {
    /// Below the tail the place is the number of digits read; in the tail more
    /// digits were read than are kept.
    #[verifier::type_invariant]
    spec fn well_formed(self) -> bool {
        if self.in_tail {
            self.read@ > self.source@.prefix().len()
        } else {
            self.place == self.read@ && self.read@ <= self.source@.prefix().len()
        }
    }

    /// The value whose digits the cursor reads.
    pub closed spec fn source(self) -> TwoAdicView {
        self.source@
    }

    /// The index of the digit that the next call of `next` gives.
    pub closed spec fn position(self) -> nat {
        self.read@
    }

    /// The digit at the cursor; moves the cursor one digit up.
    pub fn next(&mut self) -> (digit: Bit)
        ensures
            digit == old(self).source().bit(old(self).position() as int),
            final(self).source() == old(self).source(),
            final(self).position() == old(self).position() + 1,
    {
        proof {
            use_type_invariant(&*self);
        }
        let source = self.source;
        let read = Ghost((self.read@ + 1) as nat);
        if self.in_tail {
            *self = Bits { source, place: self.place, in_tail: true, read };
            source.tail()
        } else {
            let digit = source.bit(self.place);
            if self.place < source.kept() {
                *self = Bits { source, place: self.place + 1, in_tail: false, read };
            } else {
                *self = Bits { source, place: self.place, in_tail: true, read };
            }
            digit
        }
    }

    /// The next `count` digits, in the order in which the cursor reads them;
    /// moves the cursor past them.
    pub fn take(&mut self, count: usize) -> (digits: Vec<Bit>)
        ensures
            digits@ == Seq::new(
                count as nat,
                |k: int| old(self).source().bit(old(self).position() + k),
            ),
            final(self).source() == old(self).source(),
            final(self).position() == old(self).position() + count,
    {
        let ghost start = self.position();
        let ghost source = self.source();
        let mut digits: Vec<Bit> = Vec::new();
        let mut taken: usize = 0;
        while taken < count
            invariant
                taken <= count,
                self.source() == source,
                self.position() == start + taken,
                digits@ == Seq::new(taken as nat, |k: int| source.bit(start + k)),
            decreases count - taken,
        {
            let digit = self.next();
            digits.push(digit);
            taken = taken + 1;
        }
        digits
    }
}

impl TwoAdic {
    /// A cursor at the least significant digit of the expansion.
    ///
    /// Each call starts a new cursor at the beginning; the value is not
    /// changed by reading it.
    pub fn bits(&self) -> (cursor: Bits<'_>)
        ensures
            cursor.source() == self@,
            cursor.position() == 0,
    {
        Bits { source: self, place: 0, in_tail: false, read: Ghost(0) }
    }
}

} // verus!
