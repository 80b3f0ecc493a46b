//! The lexical layer: English word tokens for numbers below one thousand,
//! the period-name table, and the joining of tokens with single spaces.

use vstd::prelude::*;
use vstd::string::StringExecFns;
use vstd::string::StrSliceExecFns;

verus! {

/// Whether c is an ASCII decimal digit.
pub open spec fn is_digit_char(c: char) -> bool {
    48 <= c as u32 <= 57
}

/// Whether w is free of digit characters.
pub open spec fn no_digit_chars(w: Seq<char>) -> bool {
    forall|i: int| 0 <= i < w.len() ==> !is_digit_char(#[trigger] w[i])
}

/// A well-formed word token: non-empty and free of digit characters.
pub open spec fn token_wf(w: Seq<char>) -> bool {
    w.len() > 0 && no_digit_chars(w)
}

/// The irregular words for 1 through 19.
pub open spec fn small_word(n: int) -> Seq<char> {
    if n == 1 { "one"@ }
    else if n == 2 { "two"@ }
    else if n == 3 { "three"@ }
    else if n == 4 { "four"@ }
    else if n == 5 { "five"@ }
    else if n == 6 { "six"@ }
    else if n == 7 { "seven"@ }
    else if n == 8 { "eight"@ }
    else if n == 9 { "nine"@ }
    else if n == 10 { "ten"@ }
    else if n == 11 { "eleven"@ }
    else if n == 12 { "twelve"@ }
    else if n == 13 { "thirteen"@ }
    else if n == 14 { "fourteen"@ }
    else if n == 15 { "fifteen"@ }
    else if n == 16 { "sixteen"@ }
    else if n == 17 { "seventeen"@ }
    else if n == 18 { "eighteen"@ }
    else if n == 19 { "nineteen"@ }
    else { Seq::<char>::empty() }
}

/// The words for the multiples of ten, indexed by the tens digit 2 through 9.
pub open spec fn tens_word(n: int) -> Seq<char> {
    if n == 2 { "twenty"@ }
    else if n == 3 { "thirty"@ }
    else if n == 4 { "forty"@ }
    else if n == 5 { "fifty"@ }
    else if n == 6 { "sixty"@ }
    else if n == 7 { "seventy"@ }
    else if n == 8 { "eighty"@ }
    else if n == 9 { "ninety"@ }
    else { Seq::<char>::empty() }
}

/// The single (possibly hyphenated) word for a number in [1, 100).
pub open spec fn word_lt100(n: int) -> Seq<char> {
    if n < 20 {
        small_word(n)
    } else if n % 10 == 0 {
        tens_word(n / 10)
    } else {
        tens_word(n / 10) + "-"@ + small_word(n % 10)
    }
}

/// The tokens for a three-digit group in [0, 1000): a hundreds part
/// ("x hundred") when the hundreds digit is non-zero, then the word for the
/// remainder when that is non-zero.  Zero contributes no tokens at all.
pub open spec fn group_tokens(n: int) -> Seq<Seq<char>> {
    let hundreds_part = if n / 100 != 0 {
        seq![word_lt100(n / 100), "hundred"@]
    } else {
        Seq::<Seq<char>>::empty()
    };
    let rest_part = if n % 100 != 0 {
        seq![word_lt100(n % 100)]
    } else {
        Seq::<Seq<char>>::empty()
    };
    hundreds_part + rest_part
}

/// The name of the k-th period, the scale 1000^k, for k in [1, 12].
pub open spec fn period_name(k: int) -> Seq<char> {
    if k == 1 { "thousand"@ }
    else if k == 2 { "million"@ }
    else if k == 3 { "billion"@ }
    else if k == 4 { "trillion"@ }
    else if k == 5 { "quadrillion"@ }
    else if k == 6 { "quintillion"@ }
    else if k == 7 { "sextillion"@ }
    else if k == 8 { "septillion"@ }
    else if k == 9 { "octillion"@ }
    else if k == 10 { "nonillion"@ }
    else if k == 11 { "decillion"@ }
    else if k == 12 { "undecillion"@ }
    else { Seq::<char>::empty() }
}

/// Tokens joined with single spaces.
pub open spec fn spec_join(ts: Seq<Seq<char>>) -> Seq<char>
    decreases ts.len(),
{
    if ts.len() == 0 {
        Seq::<char>::empty()
    } else if ts.len() == 1 {
        ts[0]
    } else {
        ts[0] + " "@ + spec_join(ts.drop_first())
    }
}

/// Appending one token to a joined sequence appends a space (when anything
/// came before) and the token.
pub proof fn lemma_join_push(ts: Seq<Seq<char>>, t: Seq<char>)
    ensures
        ts.len() == 0 ==> spec_join(ts.push(t)) == t,
        ts.len() > 0 ==> spec_join(ts.push(t)) == spec_join(ts) + " "@ + t,
    decreases ts.len(),
{
    if ts.len() == 0 {
        assert(ts.push(t)[0] == t);
    } else if ts.len() == 1 {
        assert(ts.push(t).drop_first() =~= seq![t]);
        assert(spec_join(seq![t]) == t);
        assert(ts.push(t)[0] == ts[0]);
    } else {
        assert(ts.push(t).drop_first() =~= ts.drop_first().push(t));
        lemma_join_push(ts.drop_first(), t);
        assert(ts.push(t)[0] == ts[0]);
        assert(ts[0] + " "@ + (spec_join(ts.drop_first()) + " "@ + t) =~= (ts[0] + " "@
            + spec_join(ts.drop_first())) + " "@ + t);
    }
}

/// The index of the first occurrence of c in s, or s's length when s has
/// none.
pub open spec fn first_index_of(s: Seq<char>, c: char) -> int
    decreases s.len(),
{
    if s.len() == 0 {
        0
    } else if s[0] == c {
        0
    } else {
        1 + first_index_of(s.drop_first(), c)
    }
}

pub proof fn lemma_first_index_of(s: Seq<char>, c: char)
    ensures
        0 <= first_index_of(s, c) <= s.len(),
        first_index_of(s, c) < s.len() ==> s[first_index_of(s, c)] == c,
        forall|j: int| 0 <= j < first_index_of(s, c) ==> s[j] != c,
    decreases s.len(),
{
    if s.len() == 0 {
    } else if s[0] == c {
    } else {
        lemma_first_index_of(s.drop_first(), c);
        assert forall|j: int| 0 <= j < first_index_of(s, c) implies s[j] != c by {
            if j > 0 {
                assert(s.drop_first()[j - 1] == s[j]);
            }
        }
    }
}

pub proof fn lemma_first_index_of_past_prefix(s: Seq<char>, c: char, i: int)
    requires
        0 <= i <= s.len(),
        forall|j: int| 0 <= j < i ==> s[j] != c,
    ensures
        first_index_of(s, c) >= i,
    decreases s.len(),
{
    if i == 0 {
        lemma_first_index_of(s, c);
    } else {
        assert(s[0] != c);
        assert forall|j: int| 0 <= j < i - 1 implies s.drop_first()[j] != c by {
            assert(s.drop_first()[j] == s[j + 1]);
        }
        lemma_first_index_of_past_prefix(s.drop_first(), c, i - 1);
        assert(first_index_of(s, c) == 1 + first_index_of(s.drop_first(), c));
    }
}

/// The index of the first occurrence of c, or the length when there is none.
pub(crate) fn find_first(t: &str, c: char) -> (h: usize)
    ensures
        h as int == first_index_of(t@, c),
{
    let n = t.unicode_len();
    let mut i: usize = 0;
    while i < n
        invariant
            n == t@.len(),
            i <= n,
            forall|j: int| 0 <= j < i ==> t@[j] != c,
        decreases n - i,
    {
        if t.get_char(i) == c {
            proof {
                lemma_first_index_of_past_prefix(t@, c, i as int);
                lemma_first_index_of(t@, c);
            }
            return i;
        }
        i += 1;
    }
    proof {
        lemma_first_index_of_past_prefix(t@, c, n as int);
        lemma_first_index_of(t@, c);
    }
    n
}

/// Pushes a token, tracked at the level of views.
pub(crate) fn push_token(tokens: &mut Vec<String>, t: String)
    ensures
        final(tokens).deep_view() == old(tokens).deep_view().push(t@),
{
    let ghost pre = tokens.deep_view();
    let ghost tv = t@;
    tokens.push(t);
    proof {
        assert(tokens.deep_view() =~= pre.push(tv));
    }
}

fn small_word_str(n: u8) -> (r: &'static str)
    requires
        1 <= n < 20,
    ensures
        r@ == small_word(n as int),
{
    match n {
        1 => "one",
        2 => "two",
        3 => "three",
        4 => "four",
        5 => "five",
        6 => "six",
        7 => "seven",
        8 => "eight",
        9 => "nine",
        10 => "ten",
        11 => "eleven",
        12 => "twelve",
        13 => "thirteen",
        14 => "fourteen",
        15 => "fifteen",
        16 => "sixteen",
        17 => "seventeen",
        18 => "eighteen",
        _ => "nineteen",
    }
}

fn tens_word_str(n: u8) -> (r: &'static str)
    requires
        2 <= n <= 9,
    ensures
        r@ == tens_word(n as int),
{
    match n {
        2 => "twenty",
        3 => "thirty",
        4 => "forty",
        5 => "fifty",
        6 => "sixty",
        7 => "seventy",
        8 => "eighty",
        _ => "ninety",
    }
}

/// Pushes the one word for a number in [1, 100).
pub(crate) fn lt100(n: u8, tokens: &mut Vec<String>)
    requires
        1 <= n < 100,
    ensures
        final(tokens).deep_view() == old(tokens).deep_view().push(word_lt100(n as int)),
{
    if n < 20 {
        let w = String::from_str(small_word_str(n));
        push_token(tokens, w);
    } else {
        let tens: u8 = n / 10;
        let ones: u8 = n % 10;
        let mut w = String::from_str(tens_word_str(tens));
        if ones != 0 {
            w.append("-");
            w.append(small_word_str(ones));
        }
        push_token(tokens, w);
    }
}

/// Pushes the tokens for a three-digit group in [0, 1000); zero pushes nothing.
pub(crate) fn lt1000(n: u16, tokens: &mut Vec<String>)
    requires
        n < 1000,
    ensures
        final(tokens).deep_view() == old(tokens).deep_view() + group_tokens(n as int),
{
    let ghost pre = tokens.deep_view();
    let hundreds: u16 = n / 100;
    if hundreds != 0 {
        lt100(hundreds as u8, tokens);
        push_token(tokens, String::from_str("hundred"));
    }
    let rest: u16 = n % 100;
    if rest != 0 {
        lt100(rest as u8, tokens);
    }
    proof {
        assert(tokens.deep_view() =~= pre + group_tokens(n as int));
    }
}

pub(crate) fn period_name_str(k: u32) -> (r: String)
    requires
        1 <= k <= 12,
    ensures
        r@ == period_name(k as int),
{
    let w: &'static str = match k {
        1 => "thousand",
        2 => "million",
        3 => "billion",
        4 => "trillion",
        5 => "quadrillion",
        6 => "quintillion",
        7 => "sextillion",
        8 => "septillion",
        9 => "octillion",
        10 => "nonillion",
        11 => "decillion",
        _ => "undecillion",
    };
    String::from_str(w)
}

pub proof fn lemma_small_word_wf(n: int)
    requires
        1 <= n <= 19,
    ensures
        token_wf(small_word(n)),
{
    reveal_strlit("one");
    reveal_strlit("two");
    reveal_strlit("three");
    reveal_strlit("four");
    reveal_strlit("five");
    reveal_strlit("six");
    reveal_strlit("seven");
    reveal_strlit("eight");
    reveal_strlit("nine");
    reveal_strlit("ten");
    reveal_strlit("eleven");
    reveal_strlit("twelve");
    reveal_strlit("thirteen");
    reveal_strlit("fourteen");
    reveal_strlit("fifteen");
    reveal_strlit("sixteen");
    reveal_strlit("seventeen");
    reveal_strlit("eighteen");
    reveal_strlit("nineteen");
}

pub proof fn lemma_tens_word_wf(n: int)
    requires
        2 <= n <= 9,
    ensures
        token_wf(tens_word(n)),
{
    reveal_strlit("twenty");
    reveal_strlit("thirty");
    reveal_strlit("forty");
    reveal_strlit("fifty");
    reveal_strlit("sixty");
    reveal_strlit("seventy");
    reveal_strlit("eighty");
    reveal_strlit("ninety");
}

pub proof fn lemma_word_lt100_wf(n: int)
    requires
        1 <= n < 100,
    ensures
        token_wf(word_lt100(n)),
{
    if n < 20 {
        lemma_small_word_wf(n);
    } else if n % 10 == 0 {
        lemma_tens_word_wf(n / 10);
    } else {
        lemma_tens_word_wf(n / 10);
        lemma_small_word_wf(n % 10);
        reveal_strlit("-");
    }
}

pub proof fn lemma_group_tokens_wf(g: int)
    requires
        0 <= g < 1000,
    ensures
        forall|i: int| 0 <= i < group_tokens(g).len() ==> token_wf(#[trigger] group_tokens(g)[i]),
{
    if g / 100 != 0 {
        lemma_word_lt100_wf(g / 100);
        reveal_strlit("hundred");
    }
    if g % 100 != 0 {
        lemma_word_lt100_wf(g % 100);
    }
}

pub proof fn lemma_period_name_wf(k: int)
    requires
        1 <= k <= 12,
    ensures
        token_wf(period_name(k)),
{
    reveal_strlit("thousand");
    reveal_strlit("million");
    reveal_strlit("billion");
    reveal_strlit("trillion");
    reveal_strlit("quadrillion");
    reveal_strlit("quintillion");
    reveal_strlit("sextillion");
    reveal_strlit("septillion");
    reveal_strlit("octillion");
    reveal_strlit("nonillion");
    reveal_strlit("decillion");
    reveal_strlit("undecillion");
}

/// Joining well-formed tokens yields a non-empty sequence (when any token
/// stands there) that is still free of digit characters.
pub proof fn lemma_join_wf(ts: Seq<Seq<char>>)
    requires
        forall|i: int| 0 <= i < ts.len() ==> token_wf(#[trigger] ts[i]),
    ensures
        ts.len() > 0 ==> spec_join(ts).len() > 0,
        no_digit_chars(spec_join(ts)),
    decreases ts.len(),
{
    reveal_strlit(" ");
    if ts.len() == 0 {
    } else if ts.len() == 1 {
        assert(token_wf(ts[0]));
    } else {
        assert(forall|i: int|
            0 <= i < ts.drop_first().len() ==> token_wf(#[trigger] ts.drop_first()[i]));
        lemma_join_wf(ts.drop_first());
        let j = spec_join(ts);
        assert(token_wf(ts[0]));
        assert forall|i: int| 0 <= i < j.len() implies !is_digit_char(j[i]) by {
            let head = ts[0] + " "@;
            if i < head.len() {
                if i < ts[0].len() {
                    assert(j[i] == ts[0][i]);
                } else {
                    assert(j[i] == ' ');
                }
            } else {
                assert(j[i] == spec_join(ts.drop_first())[i - head.len()]);
            }
        }
    }
}

/// Joins the tokens with single spaces.
pub(crate) fn join_all(tokens: &Vec<String>) -> (r: String)
    ensures
        r@ == spec_join(tokens.deep_view()),
{
    let mut r = String::new();
    let n = tokens.len();
    let mut i: usize = 0;
    while i < n
        invariant
            n == tokens@.len(),
            i <= n,
            r@ == spec_join(tokens.deep_view().take(i as int)),
        decreases n - i,
    {
        if i > 0 {
            r.append(" ");
        }
        r.append(tokens[i].as_str());
        proof {
            let dv = tokens.deep_view();
            assert(dv.take(i + 1) =~= dv.take(i as int).push(dv[i as int]));
            lemma_join_push(dv.take(i as int), dv[i as int]);
            if i == 0 {
                assert(Seq::<char>::empty() + dv[0] =~= dv[0]);
            }
        }
        i += 1;
    }
    proof {
        assert(tokens.deep_view().take(n as int) =~= tokens.deep_view());
    }
    r
}

} // verus!
