use two_adic::{Bit, TwoAdic};

#[test]
fn ordering() {
    let integers = (i8::MIN..=i8::MAX).map(|v| TwoAdic::from(v as i32));

    for (i, v) in integers.clone().enumerate() {
        for w in integers.clone().skip(i) {
            assert!(v <= w, "{:?} <= {:?}", v, w);
        }
    }
}

#[test]
fn from_typical_i32() {
    let integers = [
        (-8, TwoAdic::OI([Bit::O, Bit::O].into())), // 000111... = -8
        (-4, TwoAdic::OI([Bit::O].into())),         // 0011... = -4
        (-3, TwoAdic::OI([Bit::I].into())),         // 1011... = -3
        (-2, TwoAdic::OI([].into())),               // 0111... = -2
        (-1, TwoAdic::II),                          // 1111... = -1
        (0, TwoAdic::OO),                           // 0000... = 0
        (1, TwoAdic::IO([].into())),                // 1000... = 1
        (2, TwoAdic::IO([Bit::O].into())),          // 0100... = 2
        (3, TwoAdic::IO([Bit::I].into())),          // 1100... = 3
        (7, TwoAdic::IO([Bit::I, Bit::I].into())),  // 1110... = 7
    ];

    for (f, t) in integers.into_iter() {
        assert_eq!(TwoAdic::from(f), t);
    }
}

fn bits(v: i8) -> impl Iterator<Item = Bit> {
    v.to_le_bytes()
        .into_iter()
        .map(|byte| {
            (0..8).map(move |i| {
                if (byte.wrapping_shr(i) & 1) == 1 {
                    Bit::I
                } else {
                    Bit::O
                }
            })
        })
        .flatten()
}

#[test]
fn bits_match_every_i8() {
    for v in i8::MIN..=i8::MAX {
        let two_adic = TwoAdic::from(v as i32);
        let two_adic_bits = two_adic.bits().take(8);
        let i8_bits = bits(v);
        assert!(two_adic_bits.into_iter().zip(i8_bits).all(|(a, b)| a == b), "{:?}", v);
    }
}

#[test]
fn bitwise_negation() {
    for v in i8::MIN..=i8::MAX {
        let two_adic = !TwoAdic::from(v as i32);
        let two_adic_bits = two_adic.bits().take(8);
        let i8_bits = bits(!v);
        assert!(two_adic_bits.into_iter().zip(i8_bits).all(|(a, b)| a == b), "{:?}", v);
    }
}
