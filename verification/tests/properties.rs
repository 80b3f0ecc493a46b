use num2en::{
    u8_to_words, u16_to_words, u32_to_words, u64_to_words, u128_to_words,
    i8_to_words, i16_to_words, i32_to_words, i64_to_words, i128_to_words, isize_to_words,
    u8_to_ord_words, u16_to_ord_words, u128_to_ord_words, str_to_words, StrConversionError,
};

#[test]
fn zero_words_and_zeroth() {
    assert_eq!(u8_to_words(0), "zero");
    assert_eq!(u128_to_words(0), "zero");
    assert_eq!(i128_to_words(0), "zero");
    assert_eq!(u8_to_ord_words(0), "zeroth");
    assert_eq!(u128_to_ord_words(0), "zeroth");
}

#[test]
fn words_have_no_digit_characters() {
    let samples: Vec<u128> = vec![0, 1, 19, 20, 21, 100, 101, 1000, 123_456, u128::MAX];
    for n in samples {
        let words = u128_to_words(n);
        assert!(!words.is_empty(), "input: {}", n);
        assert!(
            words.chars().all(|c| !c.is_ascii_digit()),
            "input: {} output: {}",
            n,
            words
        );
    }
}

#[test]
fn sign_symmetry() {
    let samples: Vec<i128> = vec![-1, -42, -999, -1000, -123_456_789, i128::MIN + 1];
    for n in samples {
        let negative_words = i128_to_words(n);
        let positive_words = i128_to_words(-n);
        assert_eq!(
            negative_words,
            format!("negative {}", positive_words),
            "input: {}",
            n
        );
    }
}

#[test]
fn most_negative_values() {
    assert_eq!(i8_to_words(i8::MIN), "negative one hundred twenty-eight");
    assert_eq!(i8_to_words(i8::MIN), format!("negative {}", u8_to_words(128)));
    assert_eq!(i16_to_words(i16::MIN), format!("negative {}", u16_to_words(32_768)));
    assert_eq!(i32_to_words(i32::MIN), format!("negative {}", u32_to_words(2_147_483_648)));
    assert_eq!(
        i64_to_words(i64::MIN),
        format!("negative {}", u64_to_words(9_223_372_036_854_775_808))
    );
    assert_eq!(
        i128_to_words(i128::MIN),
        format!("negative {}", u128_to_words(1u128 << 127))
    );
    assert_eq!(
        isize_to_words(isize::MIN),
        format!("negative {}", u128_to_words((isize::MAX as u128) + 1))
    );
}

#[test]
fn ordinal_exceptions() {
    assert_eq!(u8_to_ord_words(1), "first");
    assert_eq!(u8_to_ord_words(2), "second");
    assert_eq!(u8_to_ord_words(3), "third");
    assert_eq!(u8_to_ord_words(4), "fourth");
    assert_eq!(u8_to_ord_words(5), "fifth");
    assert_eq!(u8_to_ord_words(8), "eighth");
    assert_eq!(u8_to_ord_words(9), "ninth");
    assert_eq!(u8_to_ord_words(12), "twelfth");
    assert_eq!(u8_to_ord_words(20), "twentieth");
    assert_eq!(u8_to_ord_words(21), "twenty-first");
    assert_eq!(u8_to_ord_words(100), "one hundredth");
    assert_eq!(u16_to_ord_words(1000), "one thousandth");
}

#[test]
fn zero_group_suppression() {
    assert_eq!(u32_to_words(1_000_000), "one million");
    assert_eq!(u32_to_words(1_000_001), "one million one");
    assert_eq!(u64_to_words(1_000_000_000), "one billion");
    assert_eq!(u32_to_words(2_000_010), "two million ten");
}

#[test]
fn float_shaped_text() {
    // The decimal texts that Rust's float formatting produces for 15.2,
    // 34.000 and 4e-5, rendered through the verified parser.
    assert_eq!(str_to_words("15.2"), Ok("fifteen point two".to_string()));
    assert_eq!(str_to_words("34"), Ok("thirty-four".to_string()));
    assert_eq!(str_to_words("0.00004"), Ok("zero point zero zero zero zero four".to_string()));
}

#[test]
fn boundary_u128() {
    assert_eq!(
        u128_to_words(u128::MAX),
        "three hundred forty undecillion two hundred eighty-two decillion three hundred \
         sixty-six nonillion nine hundred twenty octillion nine hundred thirty-eight \
         septillion four hundred sixty-three sextillion four hundred sixty-three \
         quintillion three hundred seventy-four quadrillion six hundred seven trillion \
         four hundred thirty-one billion seven hundred sixty-eight million two hundred \
         eleven thousand four hundred fifty-five"
    );
    assert_eq!(
        str_to_words("340282366920938463463374607431768211455"),
        Ok(u128_to_words(u128::MAX))
    );
    assert_eq!(
        str_to_words("340282366920938463463374607431768211456"),
        Err(StrConversionError::TooLarge)
    );
}
