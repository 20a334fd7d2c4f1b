use std::cmp::Ordering;
use two_adic::{Bit, TwoAdic};

const O: Bit = Bit::O;
const I: Bit = Bit::I;

/// Integers around zero, around the powers of two and at the ends of the width.
fn samples() -> Vec<i32> {
    let mut values = vec![i32::MIN, i32::MIN + 1, i32::MAX - 1, i32::MAX];
    for v in -70..=70 {
        values.push(v);
    }
    for shift in 8..31 {
        let power = 1i32 << shift;
        for v in [power - 1, power, power + 1, -power - 1, -power, -power + 1] {
            values.push(v);
        }
    }
    values.sort();
    values.dedup();
    values
}

/// The 32-bit two's-complement pattern, least significant digit first.
fn pattern(v: i32) -> Vec<Bit> {
    (0..32).map(|k| if (v >> k) & 1 == 1 { I } else { O }).collect()
}

/// The integer that a value stands for, read off its shape and kept digits.
fn integer_of(value: &TwoAdic) -> i64 {
    let number = |digits: &Vec<Bit>| -> i64 {
        digits.iter().enumerate().map(|(k, d)| if *d == I { 1i64 << k } else { 0 }).sum()
    };
    match value {
        TwoAdic::OI(digits) => number(digits) - (2i64 << digits.len()),
        TwoAdic::II => -1,
        TwoAdic::OO => 0,
        TwoAdic::IO(digits) => number(digits) + (1i64 << digits.len()),
    }
}

#[test]
fn order_follows_the_integers() {
    let values = samples();
    for (at, i) in values.iter().enumerate() {
        for j in values.iter().skip(at) {
            let (x, y) = (TwoAdic::from(*i), TwoAdic::from(*j));
            assert_eq!(x.cmp(&y), i.cmp(j), "{} {}", i, j);
            assert_eq!(y.cmp(&x), j.cmp(i), "{} {}", j, i);
            assert!(x <= y, "{} <= {}", i, j);
            assert_eq!(x < y, i < j);
            assert_eq!(x == y, i == j);
        }
    }
}

#[test]
fn order_is_transitive_on_samples() {
    let values: Vec<TwoAdic> = (-20..=20).map(TwoAdic::from).collect();
    for x in values.iter() {
        for y in values.iter() {
            for z in values.iter() {
                if x.cmp(y) != Ordering::Greater && y.cmp(z) != Ordering::Greater {
                    assert_ne!(x.cmp(z), Ordering::Greater);
                }
            }
        }
    }
}

#[test]
fn shapes_are_ordered_whatever_they_keep() {
    let shapes = [
        TwoAdic::OI(vec![I, I, I, I]),
        TwoAdic::OI(vec![]),
        TwoAdic::II,
        TwoAdic::OO,
        TwoAdic::IO(vec![]),
        TwoAdic::IO(vec![O, O, O, O]),
    ];
    for (at, x) in shapes.iter().enumerate() {
        for (after, y) in shapes.iter().enumerate() {
            assert_eq!(x.cmp(y), at.cmp(&after), "{:?} {:?}", x, y);
        }
    }
}

#[test]
fn kept_digits_of_different_lengths_compare_by_integer() {
    // -4 = OI[O] and -5 = OI[I, I]: the shorter one is the greater.
    assert_eq!(TwoAdic::OI(vec![O]).cmp(&TwoAdic::OI(vec![I, I])), Ordering::Greater);
    assert_eq!(TwoAdic::OI(vec![I, I]).cmp(&TwoAdic::OI(vec![O])), Ordering::Less);
    // 3 = IO[I] and 4 = IO[O, O]: the shorter one is the smaller.
    assert_eq!(TwoAdic::IO(vec![I]).cmp(&TwoAdic::IO(vec![O, O])), Ordering::Less);
    assert_eq!(TwoAdic::IO(vec![O, O]).cmp(&TwoAdic::IO(vec![I])), Ordering::Greater);
    // Same length: the highest digit that differs decides.
    assert_eq!(TwoAdic::IO(vec![I, O, I]).cmp(&TwoAdic::IO(vec![O, I, I])), Ordering::Less);
    assert_eq!(TwoAdic::OI(vec![I, O, I]).cmp(&TwoAdic::OI(vec![O, I, I])), Ordering::Less);
    assert_eq!(TwoAdic::OI(vec![O, I]).cmp(&TwoAdic::OI(vec![O, I])), Ordering::Equal);
    assert_eq!(TwoAdic::IO(vec![]).cmp(&TwoAdic::IO(vec![])), Ordering::Equal);
    assert_eq!(TwoAdic::OI(vec![]).cmp(&TwoAdic::OI(vec![O])), Ordering::Greater);
}

#[test]
fn first_digits_are_the_pattern() {
    for v in samples() {
        let value = TwoAdic::from(v);
        assert_eq!(value.bits().take(32), pattern(v), "{}", v);
    }
}

#[test]
fn digits_above_the_width_repeat_the_sign() {
    for v in samples() {
        let value = TwoAdic::from(v);
        let sign = if v < 0 { I } else { O };
        let digits = value.bits().take(40);
        assert_eq!(digits.len(), 40);
        assert!(digits[32..].iter().all(|d| *d == sign), "{}", v);
        assert_eq!(value.bit(1000), sign);
    }
}

#[test]
fn from_gives_the_integer_back() {
    for v in samples() {
        assert_eq!(integer_of(&TwoAdic::from(v)), v as i64, "{}", v);
    }
}

#[test]
fn complement_has_the_complemented_pattern() {
    for v in samples() {
        let complement = !TwoAdic::from(v);
        assert_eq!(complement.bits().take(32), pattern(!v), "{}", v);
        assert_eq!(complement, TwoAdic::from(!v), "{}", v);
        assert_eq!(integer_of(&complement), -(v as i64) - 1);
    }
}

#[test]
fn complement_swaps_shapes_and_digits() {
    assert_eq!(!TwoAdic::OI(vec![O, I, I]), TwoAdic::IO(vec![I, O, O]));
    assert_eq!(!TwoAdic::IO(vec![O, I, I]), TwoAdic::OI(vec![I, O, O]));
    assert_eq!(!TwoAdic::II, TwoAdic::OO);
    assert_eq!(!TwoAdic::OO, TwoAdic::II);
    assert_eq!(!TwoAdic::OI(vec![]), TwoAdic::IO(vec![]));
}

#[test]
fn complement_twice_is_the_value() {
    let shapes = [
        TwoAdic::OI(vec![O, I, I, O]),
        TwoAdic::OI(vec![]),
        TwoAdic::II,
        TwoAdic::OO,
        TwoAdic::IO(vec![]),
        TwoAdic::IO(vec![I, O, O, I, I]),
    ];
    for x in shapes {
        assert_eq!(!!x.clone(), x);
    }
    for v in samples() {
        assert_eq!(!!TwoAdic::from(v), TwoAdic::from(v));
    }
}

#[test]
fn minus_one_and_zero_are_their_own_shapes() {
    assert!(matches!(TwoAdic::from(-1), TwoAdic::II));
    assert!(matches!(TwoAdic::from(0), TwoAdic::OO));
    assert!(matches!(TwoAdic::from(-2), TwoAdic::OI(_)));
    assert!(matches!(TwoAdic::from(1), TwoAdic::IO(_)));
}

#[test]
fn equality_is_shape_and_digits() {
    assert_eq!(TwoAdic::OI(vec![O, I]), TwoAdic::OI(vec![O, I]));
    assert_ne!(TwoAdic::OI(vec![O, I]), TwoAdic::IO(vec![O, I]));
    assert_ne!(TwoAdic::OI(vec![O, I]), TwoAdic::OI(vec![O, I, I]));
    assert_ne!(TwoAdic::OI(vec![O, I]), TwoAdic::OI(vec![I, I]));
    assert_ne!(TwoAdic::OI(vec![]), TwoAdic::II);
    assert_ne!(TwoAdic::IO(vec![]), TwoAdic::OO);
    assert_ne!(TwoAdic::II, TwoAdic::OO);
    assert_eq!(TwoAdic::II, TwoAdic::II);
    assert_eq!(TwoAdic::OO, TwoAdic::OO);
}

#[test]
fn equal_is_the_same_as_compares_equal() {
    let values: Vec<TwoAdic> = (-20..=20).map(TwoAdic::from).collect();
    for x in values.iter() {
        for y in values.iter() {
            assert_eq!(x == y, x.cmp(y) == Ordering::Equal);
            assert_eq!(x.cmp(y) == Ordering::Less, y.cmp(x) == Ordering::Greater);
        }
    }
}

#[test]
fn a_clone_is_equal() {
    for v in [-9, -2, -1, 0, 1, 12] {
        let value = TwoAdic::from(v);
        assert_eq!(value.clone(), value);
    }
}

#[test]
fn into_is_from() {
    let value: TwoAdic = 6.into();
    assert_eq!(value, TwoAdic::IO(vec![O, I]));
}
