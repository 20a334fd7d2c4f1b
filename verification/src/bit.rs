//! The binary digit.

use std::cmp::Ordering;
use vstd::prelude::*;

verus! {

/// One digit of a binary expansion.
#[derive(Debug, Clone, Copy, PartialEq, Eq, Structural, Ord)]
pub enum Bit {
    /// The digit zero.
    O,
    /// The digit one.
    I,
}

/// How the integer `a` stands to the integer `b`.
pub open spec fn int_order(a: int, b: int) -> Ordering {
    if a < b {
        Ordering::Less
    } else if a == b {
        Ordering::Equal
    } else {
        Ordering::Greater
    }
}

impl Bit {
    /// The number this digit stands for.
    pub open spec fn value(self) -> int {
        match self {
            Bit::O => 0,
            Bit::I => 1,
        }
    }

    /// The other digit.
    pub open spec fn flip(self) -> Bit {
        match self {
            Bit::O => Bit::I,
            Bit::I => Bit::O,
        }
    }
}

impl vstd::std_specs::ops::NotSpecImpl for Bit {
    open spec fn obeys_not_spec() -> bool {
        true
    }

    open spec fn not_req(self) -> bool {
        true
    }

    open spec fn not_spec(self) -> Bit {
        self.flip()
    }
}

impl std::ops::Not for Bit {
    type Output = Bit;

    /// Swaps the two digits.
    fn not(self) -> (flipped: Bit)
        ensures
            flipped == self.flip(),
    {
        match self {
            Bit::I => Bit::O,
            Bit::O => Bit::I,
        }
    }
}

impl vstd::std_specs::cmp::PartialOrdSpecImpl for Bit {
    open spec fn obeys_partial_cmp_spec() -> bool {
        true
    }

    open spec fn partial_cmp_spec(&self, other: &Bit) -> Option<Ordering> {
        Some(int_order(self.value(), other.value()))
    }
}

impl PartialOrd for Bit {
    /// Zero comes before one.
    fn partial_cmp(&self, other: &Bit) -> (order: Option<Ordering>) {
        match (*self, *other) {
            (Bit::O, Bit::I) => Some(Ordering::Less),
            (Bit::I, Bit::O) => Some(Ordering::Greater),
            _ => Some(Ordering::Equal),
        }
    }
}

} // verus!
