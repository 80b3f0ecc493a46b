use num2en::{
    u8_to_words, u16_to_words, u32_to_words, u64_to_words, u128_to_words, usize_to_words,
    i8_to_words, i16_to_words, i32_to_words, i64_to_words, i128_to_words, isize_to_words,
    u8_to_ord_words, u16_to_ord_words, u32_to_ord_words, u64_to_ord_words, u128_to_ord_words,
    usize_to_ord_words, str_digits_to_words, str_to_words, DigitConversionError,
    StrConversionError,
};

// An independent reference rendering, used as the oracle for sweeps over
// whole value ranges.

fn small_ref(n: u8) -> &'static str {
    match n {
        1 => "one",
        2 => "two",
        3 => "three",
        4 => "four",
        5 => "five",
        6 => "six",
        7 => "seven",
        8 => "eight",
        9 => "nine",
        10 => "ten",
        11 => "eleven",
        12 => "twelve",
        13 => "thirteen",
        14 => "fourteen",
        15 => "fifteen",
        16 => "sixteen",
        17 => "seventeen",
        18 => "eighteen",
        19 => "nineteen",
        _ => unreachable!(),
    }
}

fn tens_ref(n: u8) -> &'static str {
    match n {
        2 => "twenty",
        3 => "thirty",
        4 => "forty",
        5 => "fifty",
        6 => "sixty",
        7 => "seventy",
        8 => "eighty",
        9 => "ninety",
        _ => unreachable!(),
    }
}

fn lt100_ref(n: u8) -> String {
    if n < 20 {
        small_ref(n).to_string()
    } else if n % 10 == 0 {
        tens_ref(n / 10).to_string()
    } else {
        format!("{}-{}", tens_ref(n / 10), small_ref(n % 10))
    }
}

fn push_lt1000_ref(n: u16, out: &mut Vec<String>) {
    if n / 100 != 0 {
        out.push(lt100_ref((n / 100) as u8));
        out.push("hundred".to_string());
    }
    if n % 100 != 0 {
        out.push(lt100_ref((n % 100) as u8));
    }
}

fn period_ref(k: usize) -> &'static str {
    match k {
        1 => "thousand",
        2 => "million",
        3 => "billion",
        4 => "trillion",
        5 => "quadrillion",
        6 => "quintillion",
        7 => "sextillion",
        8 => "septillion",
        9 => "octillion",
        10 => "nonillion",
        11 => "decillion",
        12 => "undecillion",
        _ => unreachable!(),
    }
}

fn cardinal_ref(n: u128) -> String {
    if n == 0 {
        return "zero".to_string();
    }
    let mut groups: Vec<u16> = Vec::new();
    let mut m = n;
    while m > 0 {
        groups.push((m % 1000) as u16);
        m /= 1000;
    }
    if groups.len() == 1 {
        groups.push(0);
    }
    let mut out: Vec<String> = Vec::new();
    for idx in (1..groups.len()).rev() {
        if groups[idx] != 0 {
            push_lt1000_ref(groups[idx], &mut out);
            out.push(period_ref(idx).to_string());
        }
    }
    push_lt1000_ref(groups[0], &mut out);
    out.join(" ")
}

fn signed_ref(n: i128) -> String {
    if n >= 0 {
        cardinal_ref(n as u128)
    } else if n == i128::MIN {
        format!("negative {}", cardinal_ref(1u128 << 127))
    } else {
        format!("negative {}", cardinal_ref((-n) as u128))
    }
}

fn ordinal_ref(n: u128) -> String {
    if n == 0 {
        return "zeroth".to_string();
    }
    let words = cardinal_ref(n);
    let mut toks: Vec<&str> = words.split(' ').collect();
    let last = toks.pop().unwrap();
    let (prefix, word) = match last.find('-') {
        Some(i) => (&last[..i + 1], &last[i + 1..]),
        None => ("", last),
    };
    let mapped = match word {
        "one" => "first".to_string(),
        "two" => "second".to_string(),
        "three" => "third".to_string(),
        "five" => "fifth".to_string(),
        "eight" => "eighth".to_string(),
        "nine" => "ninth".to_string(),
        "twelve" => "twelfth".to_string(),
        w if w.ends_with('y') => format!("{}ieth", &w[..w.len() - 1]),
        w => format!("{}th", w),
    };
    let mut s = toks.join(" ");
    if !s.is_empty() {
        s.push(' ');
    }
    format!("{}{}{}", s, prefix, mapped)
}

#[test]
fn all_nums_between_0_and_1000() {
    for n in 0u128..1000 {
        assert_eq!(u128_to_words(n), cardinal_ref(n), "input: {}", n);
    }
    assert_eq!(u128_to_words(0), "zero");
    assert_eq!(u128_to_words(7), "seven");
    assert_eq!(u128_to_words(15), "fifteen");
    assert_eq!(u128_to_words(40), "forty");
    assert_eq!(u128_to_words(142), "one hundred forty-two");
    assert_eq!(u128_to_words(999), "nine hundred ninety-nine");
}

#[test]
fn all_nums_between_0_and_negative_1000() {
    for n in -999i128..0 {
        assert_eq!(i128_to_words(n), signed_ref(n), "input: {}", n);
    }
    assert_eq!(i128_to_words(-1), "negative one");
    assert_eq!(i128_to_words(-111), "negative one hundred eleven");
    assert_eq!(i128_to_words(-999), "negative nine hundred ninety-nine");
}

#[test]
fn nums_represented_by_u8() {
    for n in 0u8..=u8::MAX {
        assert_eq!(u8_to_words(n), cardinal_ref(n as u128), "input: {}", n);
    }
    assert_eq!(u8_to_words(1), "one");
    assert_eq!(u8_to_words(142), "one hundred forty-two");
}

#[test]
fn nums_represented_by_i8() {
    for n in i8::MIN..=i8::MAX {
        assert_eq!(i8_to_words(n), signed_ref(n as i128), "input: {}", n);
    }
    assert_eq!(i8_to_words(2), "two");
    assert_eq!(i8_to_words(120), "one hundred twenty");
    assert_eq!(i8_to_words(-111), "negative one hundred eleven");
}

#[test]
fn nums_represented_by_u16() {
    for n in 0u16..=u16::MAX {
        assert_eq!(u16_to_words(n), cardinal_ref(n as u128), "input: {}", n);
    }
    assert_eq!(u16_to_words(3), "three");
    assert_eq!(u16_to_words(12_142), "twelve thousand one hundred forty-two");
}

#[test]
fn nums_represented_by_i16() {
    for n in i16::MIN..=i16::MAX {
        assert_eq!(i16_to_words(n), signed_ref(n as i128), "input: {}", n);
    }
    assert_eq!(i16_to_words(4), "four");
    assert_eq!(i16_to_words(1969), "one thousand nine hundred sixty-nine");
    assert_eq!(i16_to_words(-2918), "negative two thousand nine hundred eighteen");
}

#[test]
fn nums_represented_by_u32() {
    let samples: Vec<u32> = vec![
        0, 5, 100, 1000, 99_999, 100_000, 1_000_000, 20_030_040, 999_999_999, 4_000_000_000,
        u32::MAX,
    ];
    for n in samples {
        assert_eq!(u32_to_words(n), cardinal_ref(n as u128), "input: {}", n);
    }
    assert_eq!(u32_to_words(5), "five");
    assert_eq!(
        u32_to_words(u32::MAX),
        "four billion two hundred ninety-four million nine hundred sixty-seven thousand \
         two hundred ninety-five"
    );
}

#[test]
fn nums_represented_by_i32() {
    let samples: Vec<i32> = vec![
        i32::MIN, -1_000_000_001, -65_536, -6, 0, 6, 99_999, 2_000_000_000, i32::MAX,
    ];
    for n in samples {
        assert_eq!(i32_to_words(n), signed_ref(n as i128), "input: {}", n);
    }
    assert_eq!(i32_to_words(6), "six");
}

#[test]
fn nums_represented_by_u64() {
    let samples: Vec<u64> = vec![
        0, 70, 1_000_000, 123_456_789_012, 1_000_000_000_000_000_000, u64::MAX,
    ];
    for n in samples {
        assert_eq!(u64_to_words(n), cardinal_ref(n as u128), "input: {}", n);
    }
    assert_eq!(u64_to_words(70), "seventy");
    assert_eq!(
        u64_to_words(u64::MAX),
        "eighteen quintillion four hundred forty-six quadrillion seven hundred forty-four \
         trillion seventy-three billion seven hundred nine million five hundred fifty-one \
         thousand six hundred fifteen"
    );
}

#[test]
fn nums_represented_by_i64() {
    let samples: Vec<i64> = vec![
        i64::MIN, -4_611_686_018_427_387_904, -71, 0, 71, 5_000_000_007, i64::MAX,
    ];
    for n in samples {
        assert_eq!(i64_to_words(n), signed_ref(n as i128), "input: {}", n);
    }
    assert_eq!(i64_to_words(71), "seventy-one");
    assert_eq!(i64_to_words(-71), "negative seventy-one");
}

#[test]
fn nums_represented_by_u128() {
    let samples: Vec<u128> = vec![
        0, 180, 1_000_000_000_000_000_000_000_000, 10u128.pow(36), u128::MAX - 1, u128::MAX,
    ];
    for n in samples {
        assert_eq!(u128_to_words(n), cardinal_ref(n), "input: {}", n);
    }
    assert_eq!(u128_to_words(180), "one hundred eighty");
    assert_eq!(u128_to_words(10u128.pow(36)), "one undecillion");
}

#[test]
fn nums_represented_by_i128() {
    let samples: Vec<i128> = vec![
        i128::MIN, i128::MIN + 1, -211, 0, 211, 10i128.pow(33), i128::MAX,
    ];
    for n in samples {
        assert_eq!(i128_to_words(n), signed_ref(n), "input: {}", n);
    }
    assert_eq!(i128_to_words(211), "two hundred eleven");
}

#[test]
fn nums_represented_by_usize() {
    let samples: Vec<usize> = vec![0, 1050, 65_536, 4_294_967_296, usize::MAX];
    for n in samples {
        assert_eq!(usize_to_words(n), cardinal_ref(n as u128), "input: {}", n);
    }
    assert_eq!(usize_to_words(1050), "one thousand fifty");
}

#[test]
fn nums_represented_by_isize() {
    let samples: Vec<isize> = vec![isize::MIN, -2012, 0, 2012, isize::MAX];
    for n in samples {
        assert_eq!(isize_to_words(n), signed_ref(n as i128), "input: {}", n);
    }
    assert_eq!(isize_to_words(2012), "two thousand twelve");
}

#[test]
fn func_str_digits_to_words() {
    assert_eq!(
        str_digits_to_words("001247"),
        Ok("zero zero one two four seven".to_string())
    );
    assert_eq!(
        str_digits_to_words("12408842"),
        Ok("one two four zero eight eight four two".to_string())
    );
    assert_eq!(
        str_digits_to_words("00015000"),
        Ok("zero zero zero one five zero zero zero".to_string())
    );
    assert_eq!(str_digits_to_words("0123456789"), Ok(
        "zero one two three four five six seven eight nine".to_string()
    ));
    assert_eq!(str_digits_to_words(""), Ok("".to_string()));
    assert_eq!(str_digits_to_words("12a"), Err(DigitConversionError::InvalidCharacter));
    assert_eq!(str_digits_to_words("124brb"), Err(DigitConversionError::InvalidCharacter));
    assert_eq!(str_digits_to_words("-1"), Err(DigitConversionError::InvalidCharacter));
    assert_eq!(str_digits_to_words("1.2"), Err(DigitConversionError::InvalidCharacter));
}

#[test]
fn nums_represented_by_str() {
    assert_eq!(
        str_to_words("123.456"),
        Ok("one hundred twenty-three point four five six".to_string())
    );
    assert_eq!(
        str_to_words("123.123"),
        Ok("one hundred twenty-three point one two three".to_string())
    );
    assert_eq!(str_to_words("1095"), Ok("one thousand ninety-five".to_string()));
    assert_eq!(str_to_words("0.0042"), Ok("zero point zero zero four two".to_string()));
    assert_eq!(str_to_words(".0042"), Ok("point zero zero four two".to_string()));
    assert_eq!(str_to_words("1095."), Ok("one thousand ninety-five point".to_string()));
    assert_eq!(str_to_words("0003000"), Ok("three thousand".to_string()));
    assert_eq!(str_to_words("-1.5"), Ok("negative one point five".to_string()));
    assert_eq!(str_to_words("-.5"), Ok("negative point five".to_string()));
    assert_eq!(str_to_words("-0"), Ok("negative zero".to_string()));
    assert_eq!(str_to_words(""), Ok("".to_string()));
    assert_eq!(
        str_to_words("340282366920938463463374607431768211455.99999999"),
        Ok("three hundred forty undecillion two hundred eighty-two decillion three hundred \
            sixty-six nonillion nine hundred twenty octillion nine hundred thirty-eight \
            septillion four hundred sixty-three sextillion four hundred sixty-three \
            quintillion three hundred seventy-four quadrillion six hundred seven trillion \
            four hundred thirty-one billion seven hundred sixty-eight million two hundred \
            eleven thousand four hundred fifty-five point nine nine nine nine nine nine \
            nine nine".to_string())
    );
    assert_eq!(str_to_words("235:53"), Err(StrConversionError::InvalidString));
    assert_eq!(str_to_words("-"), Err(StrConversionError::InvalidString));
    assert_eq!(str_to_words("."), Err(StrConversionError::InvalidString));
    assert_eq!(str_to_words("-."), Err(StrConversionError::InvalidString));
    assert_eq!(str_to_words("1..2"), Err(StrConversionError::InvalidString));
    assert_eq!(str_to_words("1-2"), Err(StrConversionError::InvalidString));
    assert_eq!(str_to_words("--1"), Err(StrConversionError::InvalidString));
    assert_eq!(str_to_words("4.2e1"), Err(StrConversionError::InvalidString));
    assert_eq!(
        str_to_words("340282366920938463463374607431768211456"),
        Err(StrConversionError::TooLarge)
    );
    assert_eq!(
        str_to_words("999999999999999999999999999999999999999999"),
        Err(StrConversionError::TooLarge)
    );
}

#[test]
fn ord_nums_represented_by_u8() {
    for n in 0u8..=u8::MAX {
        assert_eq!(u8_to_ord_words(n), ordinal_ref(n as u128), "input: {}", n);
    }
    assert_eq!(u8_to_ord_words(1), "first");
    assert_eq!(u8_to_ord_words(13), "thirteenth");
    assert_eq!(u8_to_ord_words(142), "one hundred forty-second");
}

#[test]
fn ord_nums_represented_by_u16() {
    for n in 0u16..=u16::MAX {
        assert_eq!(u16_to_ord_words(n), ordinal_ref(n as u128), "input: {}", n);
    }
    assert_eq!(u16_to_ord_words(3), "third");
    assert_eq!(u16_to_ord_words(12_142), "twelve thousand one hundred forty-second");
}

#[test]
fn ord_nums_represented_by_u32() {
    let samples: Vec<u32> = vec![
        0, 5, 1000, 99_999, 1_000_000, 20_030_040, 999_999_999, u32::MAX,
    ];
    for n in samples {
        assert_eq!(u32_to_ord_words(n), ordinal_ref(n as u128), "input: {}", n);
    }
    assert_eq!(u32_to_ord_words(5), "fifth");
    assert_eq!(u32_to_ord_words(1_000_000), "one millionth");
}

#[test]
fn ord_nums_represented_by_u64() {
    let samples: Vec<u64> = vec![
        0, 70, 1_000_000, 123_456_789_012, 1_000_000_000_000_000_000, u64::MAX,
    ];
    for n in samples {
        assert_eq!(u64_to_ord_words(n), ordinal_ref(n as u128), "input: {}", n);
    }
    assert_eq!(u64_to_ord_words(70), "seventieth");
}

#[test]
fn ord_nums_represented_by_u128() {
    let samples: Vec<u128> = vec![
        0, 180, 10u128.pow(36), u128::MAX - 3, u128::MAX,
    ];
    for n in samples {
        assert_eq!(u128_to_ord_words(n), ordinal_ref(n), "input: {}", n);
    }
    assert_eq!(u128_to_ord_words(180), "one hundred eightieth");
}

#[test]
fn ord_nums_represented_by_usize() {
    let samples: Vec<usize> = vec![0, 2012, 65_536, 4_294_967_296, usize::MAX];
    for n in samples {
        assert_eq!(usize_to_ord_words(n), ordinal_ref(n as u128), "input: {}", n);
    }
    assert_eq!(usize_to_ord_words(2012), "two thousand twelfth");
}
