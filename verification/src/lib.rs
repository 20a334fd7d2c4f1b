//! Two-adic integers: binary expansions, least significant digit first, that
//! are constant from some digit on.
//!
//! Such an expansion stands for an integer, read in two's complement: one that
//! ends in zeros for a number from zero up, one that ends in ones for a number
//! below zero. [`TwoAdic`] holds the expansion in one of four shapes,
//! [`TwoAdic::bits`] reads its digits, [`TwoAdic::cmp`] orders two values as
//! the integers they stand for, `!` swaps every digit and `TwoAdic::from`
//! makes the value of a 32-bit integer.
//!
//! What the functions promise is stated over [`TwoAdicView`], the value as
//! mathematics sees it, and the laws that hold between them are proved beside
//! them.

pub mod bit;
pub mod complement;
pub mod convert;
pub mod digits;
pub mod integer;
pub mod order;
pub mod pattern;
pub mod repr;
pub mod stream;

pub use bit::Bit;
pub use repr::{TwoAdic, TwoAdicView};
pub use stream::Bits;
