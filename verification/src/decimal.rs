//! Decimal text: parsing a string of the shape `[-]digits[.digits]` and
//! rendering it as words — the integer part through the cardinal engine, the
//! fractional part spelled digit by digit after the word "point".

use vstd::prelude::*;
use vstd::string::StringExecFns;
use vstd::string::StrSliceExecFns;
use vstd::pervasive::unreached;

use crate::lexicon::{
    spec_join, push_token, join_all, first_index_of, lemma_first_index_of, find_first,
};
use crate::cardinal::{to_words_spec, u128_to_words};
use crate::digits::{is_digit_char, all_digit_chars, digits_words_spec, str_digits_to_words};

verus! {

/// The possible errors of [`str_to_words`].
#[derive(Debug, PartialEq)]
pub enum StrConversionError {
    /// The string is not of the shape `[-]digits[.digits]` with at least one
    /// digit.
    InvalidString,
    /// The integer part exceeds the largest 128-bit unsigned value.
    TooLarge,
}

/// The possible errors of a finite-float-to-words conversion.
#[derive(Debug, PartialEq)]
pub enum FloatConversionError {
    /// The value is NaN or infinite.
    NotFinite,
    /// The value's integer part exceeds the largest 128-bit unsigned value.
    TooLarge,
}

/// A well-formed decimal string: every character is a digit, the single
/// decimal point, or a minus sign at the very front — and a digit occurs
/// somewhere.
pub open spec fn valid_decimal(s: Seq<char>) -> bool {
    &&& forall|i: int|
        0 <= i < s.len() ==> (is_digit_char(#[trigger] s[i]) || s[i] == '.' || (s[i] == '-' && i
            == 0))
    &&& forall|i: int, j: int| 0 <= i < j < s.len() && #[trigger] s[i] == '.' ==> #[trigger] s[j]
        != '.'
    &&& exists|i: int| 0 <= i < s.len() && is_digit_char(#[trigger] s[i])
}

/// Whether the string carries a leading minus sign.
pub open spec fn has_minus(s: Seq<char>) -> bool {
    s.len() > 0 && s[0] == '-'
}

/// The string with a leading minus sign removed.
pub open spec fn body_of(s: Seq<char>) -> Seq<char> {
    if has_minus(s) {
        s.drop_first()
    } else {
        s
    }
}

/// The numeric value of a string of decimal digits (most significant first).
pub open spec fn digits_value(s: Seq<char>) -> int
    decreases s.len(),
{
    if s.len() == 0 {
        0
    } else {
        digits_value(s.drop_last()) * 10 + (s.last() as u32 - 48)
    }
}

/// The integer part: the digits before the decimal point (or all of them).
pub open spec fn int_part(s: Seq<char>) -> Seq<char> {
    let b = body_of(s);
    b.take(first_index_of(b, '.'))
}

/// Whether the integer part's value is representable in 128 bits.
pub open spec fn int_part_fits(s: Seq<char>) -> bool {
    digits_value(int_part(s)) <= u128::MAX as int
}

/// The tokens of a valid decimal string: an optional "negative", the integer
/// part's words when any digit stands before the point, "point" when a point
/// occurs, and the spelled fractional digits when any follow it.
pub open spec fn decimal_tokens(s: Seq<char>) -> Seq<Seq<char>> {
    let b = body_of(s);
    let d = first_index_of(b, '.');
    let sign = if has_minus(s) {
        seq!["negative"@]
    } else {
        Seq::<Seq<char>>::empty()
    };
    let ip = if d > 0 {
        seq![to_words_spec(digits_value(b.take(d)) as nat)]
    } else {
        Seq::<Seq<char>>::empty()
    };
    let point = if d < b.len() {
        seq!["point"@]
    } else {
        Seq::<Seq<char>>::empty()
    };
    let frac = if d + 1 < b.len() {
        seq![digits_words_spec(b.skip(d + 1))]
    } else {
        Seq::<Seq<char>>::empty()
    };
    sign + ip + point + frac
}

/// The rendered form of a valid decimal string.
pub open spec fn decimal_words_spec(s: Seq<char>) -> Seq<char> {
    spec_join(decimal_tokens(s))
}

proof fn lemma_digits_value_nonneg(s: Seq<char>)
    requires
        all_digit_chars(s),
    ensures
        digits_value(s) >= 0,
    decreases s.len(),
{
    if s.len() > 0 {
        assert(all_digit_chars(s.drop_last()));
        lemma_digits_value_nonneg(s.drop_last());
    }
}

/// Extending a digit string on the right can only grow its value.
proof fn lemma_digits_value_prefix_le(s: Seq<char>, i: int)
    requires
        all_digit_chars(s),
        0 <= i <= s.len(),
    ensures
        digits_value(s.take(i)) <= digits_value(s),
    decreases s.len() - i,
{
    if i < s.len() {
        lemma_digits_value_prefix_le(s, i + 1);
        let p = s.take(i + 1);
        assert(p.drop_last() =~= s.take(i));
        assert(all_digit_chars(s.take(i)));
        lemma_digits_value_nonneg(s.take(i));
        assert(is_digit_char(s[i]));
        assert(digits_value(p) == digits_value(s.take(i)) * 10 + (s[i] as u32 - 48));
        assert(digits_value(s.take(i)) * 10 >= digits_value(s.take(i)));
    } else {
        assert(s.take(i) =~= s);
    }
}

/// Parses a string of decimal digits as a 128-bit value, reporting overflow
/// by its value: the error comes exactly when the digits denote more than
/// `u128::MAX`.
fn parse_digits(ip: &str) -> (r: Result<u128, StrConversionError>)
    requires
        all_digit_chars(ip@),
    ensures
        r matches Ok(v) ==> v as int == digits_value(ip@),
        r is Ok <==> digits_value(ip@) <= u128::MAX as int,
        r matches Err(e) ==> e == StrConversionError::TooLarge,
{
    let n = ip.unicode_len();
    let mut acc: u128 = 0;
    let mut j: usize = 0;
    while j < n
        invariant
            n == ip@.len(),
            j <= n,
            all_digit_chars(ip@),
            acc as int == digits_value(ip@.take(j as int)),
        decreases n - j,
    {
        let c = ip.get_char(j);
        proof {
            assert(is_digit_char(ip@[j as int]));
        }
        let dv: u128 = (c as u32 - 48) as u128;
        if acc > (u128::MAX - dv) / 10 {
            proof {
                let p = ip@.take(j + 1);
                assert(p.drop_last() =~= ip@.take(j as int));
                assert(digits_value(p) == acc * 10 + dv);
                assert(acc * 10 + dv > u128::MAX as int) by {
                    let cap = (u128::MAX - dv) as int;
                    assert(10 * (cap / 10) + cap % 10 == cap);
                    assert(acc as int >= cap / 10 + 1);
                    assert(acc as int * 10 >= (cap / 10 + 1) * 10);
                    assert((cap / 10 + 1) * 10 == 10 * (cap / 10) + 10);
                }
                lemma_digits_value_prefix_le(ip@, j + 1);
            }
            return Err(StrConversionError::TooLarge);
        }
        proof {
            let p = ip@.take(j + 1);
            assert(p.drop_last() =~= ip@.take(j as int));
            assert(digits_value(p) == acc * 10 + dv);
            let cap = (u128::MAX - dv) as int;
            assert(10 * (cap / 10) + cap % 10 == cap);
            assert(acc as int * 10 <= (cap / 10) * 10);
            assert((cap / 10) * 10 == 10 * (cap / 10));
        }
        acc = acc * 10 + dv;
        j += 1;
    }
    proof {
        assert(ip@.take(n as int) =~= ip@);
    }
    Ok(acc)
}

/// Converts decimal text of the shape `[-]digits[.digits]` to words; the
/// empty string gives the empty string.  Rejects any other shape as invalid,
/// and an integer part beyond 128 bits as too large; the fractional part's
/// length is unrestricted.
pub fn str_to_words(string: &str) -> (r: Result<String, StrConversionError>)
    ensures
        string@.len() == 0 ==> (r matches Ok(out) && out@ == Seq::<char>::empty()),
        string@.len() > 0 && !valid_decimal(string@) ==> (r matches Err(e) && e
            == StrConversionError::InvalidString),
        valid_decimal(string@) && !int_part_fits(string@) ==> (r matches Err(e) && e
            == StrConversionError::TooLarge),
        valid_decimal(string@) && int_part_fits(string@) ==> (r matches Ok(out) && out@
            == decimal_words_spec(string@)),
{
    let n = string.unicode_len();
    if n == 0 {
        return Ok(String::new());
    }
    let mut seen_dot = false;
    let mut seen_digit = false;
    let mut i: usize = 0;
    while i < n
        invariant
            n == string@.len(),
            i <= n,
            seen_dot == exists|j: int| 0 <= j < i && #[trigger] string@[j] == '.',
            seen_digit == exists|j: int| 0 <= j < i && is_digit_char(#[trigger] string@[j]),
            forall|j: int|
                0 <= j < i ==> (is_digit_char(#[trigger] string@[j]) || string@[j] == '.' || (
                string@[j] == '-' && j == 0)),
            forall|j: int, k: int|
                0 <= j < k < i && #[trigger] string@[j] == '.' ==> #[trigger] string@[k] != '.',
        decreases n - i,
    {
        let c = string.get_char(i);
        if c == '.' {
            if seen_dot {
                return Err(StrConversionError::InvalidString);
            }
            seen_dot = true;
        } else if 48 <= c as u32 && c as u32 <= 57 {
            seen_digit = true;
        } else if !(i == 0 && c == '-') {
            proof {
                assert(!is_digit_char(string@[i as int]));
            }
            return Err(StrConversionError::InvalidString);
        }
        i += 1;
    }
    if !seen_digit {
        return Err(StrConversionError::InvalidString);
    }
    proof {
        assert(valid_decimal(string@));
    }
    let negative = string.get_char(0) == '-';
    let start: usize = if negative {
        1
    } else {
        0
    };
    let body: &str = string.substring_char(start, n);
    proof {
        assert(body@ =~= body_of(string@));
    }
    let bn = body.unicode_len();
    let d = find_first(body, '.');
    proof {
        lemma_first_index_of(body@, '.');
        assert forall|j: int| 0 <= j < body@.len() && j != first_index_of(body@, '.') implies
            is_digit_char(body@[j]) by {
            assert(body@[j] == string@[j + start]);
            if body@[j] == '.' {
                let fd = first_index_of(body@, '.');
                if j > fd {
                    assert(body@[fd] == string@[fd + start]);
                } else {
                    assert(false);
                }
            }
        }
    }
    let ip: &str = body.substring_char(0, d);
    proof {
        assert(ip@ =~= body_of(string@).take(d as int));
        assert(all_digit_chars(ip@));
    }
    let mut tokens: Vec<String> = Vec::new();
    proof {
        assert(tokens.deep_view() =~= Seq::<Seq<char>>::empty());
    }
    if negative {
        push_token(&mut tokens, String::from_str("negative"));
    }
    if d > 0 {
        let value = match parse_digits(ip) {
            Ok(v) => v,
            Err(e) => {
                return Err(e);
            },
        };
        push_token(&mut tokens, u128_to_words(value));
    }
    if d < bn {
        push_token(&mut tokens, String::from_str("point"));
        if d + 1 < bn {
            let fp: &str = body.substring_char(d + 1, bn);
            proof {
                assert(fp@ =~= body_of(string@).skip(d + 1));
                assert(all_digit_chars(fp@));
            }
            let fw = match str_digits_to_words(fp) {
                Ok(w) => w,
                Err(_) => unreached(),
            };
            push_token(&mut tokens, fw);
        }
    }
    proof {
        assert(tokens.deep_view() =~= decimal_tokens(string@));
    }
    Ok(join_all(&tokens))
}

} // verus!
