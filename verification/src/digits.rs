//! Digit spelling: a string of decimal digits becomes the digits' names,
//! one word per character, space-joined.

use vstd::prelude::*;
use vstd::string::StrSliceExecFns;

use crate::lexicon::{spec_join, lemma_join_push};
pub use crate::lexicon::is_digit_char;

verus! {

/// The possible error of [`str_digits_to_words`].
#[derive(Debug, PartialEq)]
pub enum DigitConversionError {
    /// The string holds a character other than an ASCII decimal digit.
    InvalidCharacter,
}

/// The name of a single decimal digit.
pub open spec fn digit_word(c: char) -> Seq<char> {
    if c == '0' { "zero"@ }
    else if c == '1' { "one"@ }
    else if c == '2' { "two"@ }
    else if c == '3' { "three"@ }
    else if c == '4' { "four"@ }
    else if c == '5' { "five"@ }
    else if c == '6' { "six"@ }
    else if c == '7' { "seven"@ }
    else if c == '8' { "eight"@ }
    else if c == '9' { "nine"@ }
    else { Seq::<char>::empty() }
}

/// Whether every character of s is an ASCII decimal digit.
pub open spec fn all_digit_chars(s: Seq<char>) -> bool {
    forall|i: int| 0 <= i < s.len() ==> is_digit_char(s[i])
}

/// One name token per digit character.
pub open spec fn digit_tokens(s: Seq<char>) -> Seq<Seq<char>> {
    Seq::new(s.len(), |i: int| digit_word(s[i]))
}

/// The spelled-out form of a digit string.
pub open spec fn digits_words_spec(s: Seq<char>) -> Seq<char> {
    spec_join(digit_tokens(s))
}

/// Converts a string of digits to the digits spelled out individually; the
/// empty string gives the empty string.  Fails on the first character that is
/// not one of '0' through '9', returning no partial result.
pub fn str_digits_to_words(digits: &str) -> (r: Result<String, DigitConversionError>)
    ensures
        r is Ok <==> all_digit_chars(digits@),
        r matches Ok(out) ==> out@ == digits_words_spec(digits@),
        r matches Err(e) ==> e == DigitConversionError::InvalidCharacter,
{
    let n = digits.unicode_len();
    let mut out = String::new();
    let mut i: usize = 0;
    while i < n
        invariant
            n == digits@.len(),
            i <= n,
            all_digit_chars(digits@.take(i as int)),
            out@ == spec_join(digit_tokens(digits@.take(i as int))),
        decreases n - i,
    {
        let c = digits.get_char(i);
        let w: &'static str = match c {
            '0' => "zero",
            '1' => "one",
            '2' => "two",
            '3' => "three",
            '4' => "four",
            '5' => "five",
            '6' => "six",
            '7' => "seven",
            '8' => "eight",
            '9' => "nine",
            _ => {
                proof {
                    assert(!is_digit_char(digits@[i as int]));
                }
                return Err(DigitConversionError::InvalidCharacter);
            },
        };
        if i > 0 {
            out.append(" ");
        }
        out.append(w);
        proof {
            let pre = digits@.take(i as int);
            let cur = digits@.take(i + 1);
            assert(cur =~= pre.push(digits@[i as int]));
            assert(digit_tokens(cur) =~= digit_tokens(pre).push(digit_word(digits@[i as int])));
            lemma_join_push(digit_tokens(pre), digit_word(digits@[i as int]));
            if i == 0 {
                assert(Seq::<char>::empty() + digit_word(digits@[0]) =~= digit_word(digits@[0]));
            }
        }
        i += 1;
    }
    proof {
        assert(digits@.take(n as int) =~= digits@);
    }
    Ok(out)
}

} // verus!
