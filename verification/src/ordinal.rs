//! Ordinal conversion: the cardinal decomposition with the final token
//! rewritten — irregular forms for a handful of words, "-y" becoming "-ieth",
//! and "th" appended otherwise.

use vstd::prelude::*;
use vstd::string::StringExecFns;
use vstd::string::StrSliceExecFns;

use crate::lexicon::{
    spec_join, push_token, join_all, first_index_of, lemma_first_index_of, find_first,
};
use crate::cardinal::{cardinal_tokens, push_number, lemma_cardinal_tokens_nonempty};

verus! {

/// The index of the first hyphen of t, or t's length when t has none.
pub open spec fn first_hyphen(t: Seq<char>) -> int {
    first_index_of(t, '-')
}

/// The ordinal form of a single word: the irregular table first, then the
/// "-y" to "-ieth" rule, then a plain "th".
pub open spec fn ord_word(w: Seq<char>) -> Seq<char> {
    if w == "one"@ {
        "first"@
    } else if w == "two"@ {
        "second"@
    } else if w == "three"@ {
        "third"@
    } else if w == "five"@ {
        "fifth"@
    } else if w == "eight"@ {
        "eighth"@
    } else if w == "nine"@ {
        "ninth"@
    } else if w == "twelve"@ {
        "twelfth"@
    } else if w.len() > 0 && w[w.len() - 1] == 'y' {
        w.take(w.len() - 1) + "ieth"@
    } else {
        w + "th"@
    }
}

/// The ordinal form of a token: everything up to and including the first
/// hyphen is kept, and the trailing word is rewritten.
pub open spec fn ord_token(t: Seq<char>) -> Seq<char> {
    let h = first_hyphen(t);
    if h < t.len() {
        t.take(h + 1) + ord_word(t.skip(h + 1))
    } else {
        ord_word(t)
    }
}

/// The ordinal English form of an unsigned number: the cardinal tokens with
/// the last one rewritten.
pub open spec fn to_ord_words_spec(n: nat) -> Seq<char> {
    if n == 0 {
        "zeroth"@
    } else {
        let ts = cardinal_tokens(n);
        spec_join(ts.update(ts.len() - 1, ord_token(ts.last())))
    }
}

fn str_eq(a: &str, b: &str) -> (r: bool)
    ensures
        r == (a@ == b@),
{
    let la = a.unicode_len();
    let lb = b.unicode_len();
    if la != lb {
        return false;
    }
    let mut i: usize = 0;
    while i < la
        invariant
            la == a@.len(),
            la == b@.len(),
            i <= la,
            forall|j: int| 0 <= j < i ==> a@[j] == b@[j],
        decreases la - i,
    {
        if a.get_char(i) != b.get_char(i) {
            return false;
        }
        i += 1;
    }
    proof {
        assert(a@ =~= b@);
    }
    true
}

fn ordinalize(t: &str) -> (r: String)
    ensures
        r@ == ord_token(t@),
{
    let n = t.unicode_len();
    let h = find_first(t, '-');
    proof {
        lemma_first_index_of(t@, '-');
    }
    let prefix: &str;
    let word: &str;
    if h < n {
        prefix = t.substring_char(0, h + 1);
        word = t.substring_char(h + 1, n);
    } else {
        prefix = t.substring_char(0, 0);
        word = t;
    }
    let mut r = String::from_str(prefix);
    if str_eq(word, "one") {
        r.append("first");
    } else if str_eq(word, "two") {
        r.append("second");
    } else if str_eq(word, "three") {
        r.append("third");
    } else if str_eq(word, "five") {
        r.append("fifth");
    } else if str_eq(word, "eight") {
        r.append("eighth");
    } else if str_eq(word, "nine") {
        r.append("ninth");
    } else if str_eq(word, "twelve") {
        r.append("twelfth");
    } else {
        let wl = word.unicode_len();
        if wl > 0 && word.get_char(wl - 1) == 'y' {
            let stem = word.substring_char(0, wl - 1);
            r.append(stem);
            r.append("ieth");
        } else {
            r.append(word);
            r.append("th");
        }
    }
    proof {
        if word@.len() > 0 && word@[word@.len() - 1] == 'y' && word@ != "one"@ && word@ != "two"@
            && word@ != "three"@ && word@ != "five"@ && word@ != "eight"@ && word@ != "nine"@
            && word@ != "twelve"@ {
            assert(word@.take(word@.len() - 1) == word@.subrange(0, word@.len() - 1));
        }
        assert(r@ =~= ord_token(t@));
    }
    r
}

/// Converts any `u128` value to its ordinal English form.
pub fn u128_to_ord_words(n: u128) -> (r: String)
    ensures
        r@ == to_ord_words_spec(n as nat),
{
    if n == 0 {
        return String::from_str("zeroth");
    }
    let mut tokens: Vec<String> = Vec::new();
    proof {
        assert(tokens.deep_view() =~= Seq::<Seq<char>>::empty());
    }
    push_number(n, &mut tokens);
    proof {
        assert(tokens.deep_view() =~= cardinal_tokens(n as nat));
        lemma_cardinal_tokens_nonempty(n as nat);
    }
    let last = tokens.pop().unwrap();
    proof {
        let ts = cardinal_tokens(n as nat);
        assert(last@ == ts.last());
        assert(tokens.deep_view() =~= ts.take(ts.len() - 1));
    }
    let ord = ordinalize(last.as_str());
    push_token(&mut tokens, ord);
    proof {
        let ts = cardinal_tokens(n as nat);
        assert(tokens.deep_view() =~= ts.update(ts.len() - 1, ord_token(ts.last())));
    }
    join_all(&tokens)
}

/// Converts any `u64` value to its ordinal English form.
pub fn u64_to_ord_words(n: u64) -> (r: String)
    ensures
        r@ == to_ord_words_spec(n as nat),
{
    u128_to_ord_words(n as u128)
}

/// Converts any `u32` value to its ordinal English form.
pub fn u32_to_ord_words(n: u32) -> (r: String)
    ensures
        r@ == to_ord_words_spec(n as nat),
{
    u128_to_ord_words(n as u128)
}

/// Converts any `u16` value to its ordinal English form.
pub fn u16_to_ord_words(n: u16) -> (r: String)
    ensures
        r@ == to_ord_words_spec(n as nat),
{
    u128_to_ord_words(n as u128)
}

/// Converts any `u8` value to its ordinal English form.
pub fn u8_to_ord_words(n: u8) -> (r: String)
    ensures
        r@ == to_ord_words_spec(n as nat),
{
    u128_to_ord_words(n as u128)
}

/// Converts any `usize` value to its ordinal English form.
pub fn usize_to_ord_words(n: usize) -> (r: String)
    ensures
        r@ == to_ord_words_spec(n as nat),
{
    u128_to_ord_words(n as u128)
}

} // verus!
