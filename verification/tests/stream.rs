use two_adic::{Bit, TwoAdic};

const O: Bit = Bit::O;
const I: Bit = Bit::I;

#[test]
fn next_walks_kept_digits_delimiter_and_tail() {
    let value = TwoAdic::IO(vec![O, I, O]);
    let mut cursor = value.bits();
    let digits: Vec<Bit> = (0..7).map(|_| cursor.next()).collect();
    assert_eq!(digits, vec![O, I, O, I, O, O, O]);

    let value = TwoAdic::OI(vec![I, O]);
    let mut cursor = value.bits();
    let digits: Vec<Bit> = (0..6).map(|_| cursor.next()).collect();
    assert_eq!(digits, vec![I, O, O, I, I, I]);
}

#[test]
fn constant_values_have_no_delimiter() {
    let mut ones = TwoAdic::II.bits().take(5);
    ones.dedup();
    assert_eq!(ones, vec![I]);
    let mut zeros = TwoAdic::OO.bits().take(5);
    zeros.dedup();
    assert_eq!(zeros, vec![O]);
}

#[test]
fn take_goes_on_where_next_stopped() {
    let value = TwoAdic::from(-11);
    let mut cursor = value.bits();
    assert_eq!(cursor.next(), I);
    assert_eq!(cursor.take(2), vec![O, I]);
    assert_eq!(cursor.take(0), vec![]);
    assert_eq!(cursor.next(), O);
    assert_eq!(cursor.take(3), vec![I, I, I]);
    assert_eq!(cursor.next(), I);
}

#[test]
fn the_cursor_never_ends() {
    let value = TwoAdic::from(5);
    let mut cursor = value.bits();
    let digits = cursor.take(10_000);
    assert_eq!(digits.len(), 10_000);
    assert_eq!(&digits[..4], &[I, O, I, O]);
    assert!(digits[3..].iter().all(|d| *d == O));
    assert_eq!(cursor.next(), O);
}

#[test]
fn every_cursor_starts_at_the_beginning() {
    let value = TwoAdic::from(-6);
    let first = value.bits().take(8);
    let mut moved = value.bits();
    moved.take(5);
    let second = value.bits().take(8);
    assert_eq!(first, second);
    assert_eq!(first, vec![O, I, O, I, I, I, I, I]);
    assert_eq!(value, TwoAdic::OI(vec![O, I]));
}

#[test]
fn bit_is_the_digit_the_cursor_reads() {
    for v in [-300, -8, -2, -1, 0, 1, 7, 77, i32::MIN, i32::MAX] {
        let value = TwoAdic::from(v);
        let digits = value.bits().take(48);
        for (index, digit) in digits.iter().enumerate() {
            assert_eq!(value.bit(index), *digit, "{} at {}", v, index);
        }
    }
    assert_eq!(TwoAdic::IO(vec![]).bit(0), I);
    assert_eq!(TwoAdic::IO(vec![]).bit(1), O);
    assert_eq!(TwoAdic::OI(vec![]).bit(0), O);
    assert_eq!(TwoAdic::OI(vec![]).bit(usize::MAX), I);
    assert_eq!(TwoAdic::OO.bit(usize::MAX), O);
}
