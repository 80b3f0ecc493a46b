//! English word forms for numbers.
//!
//! Converts unsigned and signed integers of every built-in width to their
//! cardinal ("one hundred forty-two") and ordinal ("one hundred forty-second")
//! English names, spells strings of digits one word per digit, and renders
//! decimal text such as `"123.456"` as words.

pub mod lexicon;
pub mod cardinal;
pub mod ordinal;
pub mod digits;
pub mod decimal;

pub use cardinal::{
    u8_to_words, u16_to_words, u32_to_words, u64_to_words, u128_to_words, usize_to_words,
    i8_to_words, i16_to_words, i32_to_words, i64_to_words, i128_to_words, isize_to_words,
};
pub use ordinal::{
    u8_to_ord_words, u16_to_ord_words, u32_to_ord_words, u64_to_ord_words, u128_to_ord_words,
    usize_to_ord_words,
};
pub use digits::{str_digits_to_words, DigitConversionError};
pub use decimal::{str_to_words, StrConversionError, FloatConversionError};
