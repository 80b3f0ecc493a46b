//! Cardinal conversion: decomposing a magnitude into period groups of three
//! digits and rendering each through the lexical layer, for every integer
//! width, with "negative" prefixed for signed values below zero.

use vstd::prelude::*;
use vstd::string::StringExecFns;

use crate::lexicon::{
    group_tokens, period_name, spec_join, push_token, lt1000, period_name_str,
    join_all, token_wf, no_digit_chars, lemma_group_tokens_wf, lemma_period_name_wf,
    lemma_join_wf,
};

verus! {

/// 1000 raised to the e-th power.
pub open spec fn pow1000(e: nat) -> nat
    decreases e,
{
    if e == 0 {
        1
    } else {
        1000 * pow1000((e - 1) as nat)
    }
}

/// The tokens for the periods of scale 1000^k and above of a number
/// m * 1000^k: higher periods first, each non-zero group of three digits
/// rendered and followed by its period name, zero groups contributing
/// nothing.
pub open spec fn upper_tokens(m: nat, k: nat) -> Seq<Seq<char>>
    decreases m,
{
    if m == 0 {
        Seq::<Seq<char>>::empty()
    } else {
        upper_tokens(m / 1000, k + 1) + (if m % 1000 != 0 {
            group_tokens((m % 1000) as int).push(period_name(k as int))
        } else {
            Seq::<Seq<char>>::empty()
        })
    }
}

/// All tokens of the cardinal form of n: the named periods, then the units
/// group.
pub open spec fn cardinal_tokens(n: nat) -> Seq<Seq<char>> {
    upper_tokens(n / 1000, 1) + group_tokens((n % 1000) as int)
}

/// The cardinal English form of an unsigned number.
pub open spec fn to_words_spec(n: nat) -> Seq<char> {
    if n == 0 {
        "zero"@
    } else {
        spec_join(cardinal_tokens(n))
    }
}

/// The cardinal English form of a signed number: the words of the absolute
/// value, with a leading "negative" token below zero.
pub open spec fn to_words_signed_spec(n: int) -> Seq<char> {
    if n >= 0 {
        to_words_spec(n as nat)
    } else {
        spec_join(seq!["negative"@] + cardinal_tokens((-n) as nat))
    }
}

proof fn lemma_pow1000_pos(e: nat)
    ensures
        pow1000(e) >= 1,
    decreases e,
{
    if e > 0 {
        lemma_pow1000_pos((e - 1) as nat);
    }
}

proof fn lemma_pow1000_monotone(a: nat, b: nat)
    requires
        a <= b,
    ensures
        pow1000(a) <= pow1000(b),
    decreases b - a,
{
    if a < b {
        lemma_pow1000_monotone(a, (b - 1) as nat);
        lemma_pow1000_pos((b - 1) as nat);
    }
}

proof fn lemma_pow1000_13_large()
    ensures
        pow1000(13) > u128::MAX as nat,
{
    reveal_with_fuel(pow1000, 14);
}

/// A group with m >= 1 can only sit at a period the 128-bit range reaches,
/// so its period index is at most 12.
proof fn lemma_period_index_bound(m: nat, k: nat)
    requires
        m >= 1,
        m * pow1000(k) <= u128::MAX as nat,
    ensures
        k <= 12,
{
    if k >= 13 {
        lemma_pow1000_monotone(13, k);
        lemma_pow1000_13_large();
        assert(m * pow1000(k) >= 1 * pow1000(k)) by (nonlinear_arith)
            requires
                m >= 1,
                pow1000(k) >= 0,
        ;
        assert(false);
    }
}

/// Moving one period up keeps the scaled value within the 128-bit range.
proof fn lemma_next_period_bound(m: nat, k: nat)
    requires
        m * pow1000(k) <= u128::MAX as nat,
    ensures
        (m / 1000) * pow1000((k + 1) as nat) <= u128::MAX as nat,
{
    lemma_pow1000_pos(k);
    assert((m / 1000) * 1000 <= m);
    assert(pow1000((k + 1) as nat) == 1000 * pow1000(k));
    assert((m / 1000) * (1000 * pow1000(k)) == ((m / 1000) * 1000) * pow1000(k))
        by (nonlinear_arith);
    assert(((m / 1000) * 1000) * pow1000(k) <= m * pow1000(k)) by (nonlinear_arith)
        requires
            (m / 1000) * 1000 <= m,
            pow1000(k) >= 0,
    ;
}

fn push_upper(m: u128, k: u32, tokens: &mut Vec<String>)
    requires
        1 <= k,
        m as nat * pow1000(k as nat) <= u128::MAX as nat,
    ensures
        final(tokens).deep_view() == old(tokens).deep_view() + upper_tokens(m as nat, k as nat),
    decreases m,
{
    if m == 0 {
        proof {
            assert(tokens.deep_view() =~= old(tokens).deep_view() + upper_tokens(0, k as nat));
        }
        return;
    }
    proof {
        lemma_period_index_bound(m as nat, k as nat);
        lemma_next_period_bound(m as nat, k as nat);
    }
    push_upper(m / 1000, k + 1, tokens);
    let g: u16 = (m % 1000) as u16;
    if g != 0 {
        lt1000(g, tokens);
        push_token(tokens, period_name_str(k));
    }
    proof {
        assert(tokens.deep_view() =~= old(tokens).deep_view() + upper_tokens(m as nat, k as nat));
    }
}

/// Pushes every token of the cardinal form of n (none at all for n == 0).
pub(crate) fn push_number(n: u128, tokens: &mut Vec<String>)
    ensures
        final(tokens).deep_view() == old(tokens).deep_view() + cardinal_tokens(n as nat),
{
    proof {
        assert(pow1000(1) == 1000) by {
            reveal_with_fuel(pow1000, 2);
        }
        assert((n as nat / 1000) * 1000 <= n as nat);
    }
    push_upper(n / 1000, 1, tokens);
    let g: u16 = (n % 1000) as u16;
    lt1000(g, tokens);
    proof {
        assert(tokens.deep_view() =~= old(tokens).deep_view() + cardinal_tokens(n as nat));
    }
}

/// A non-zero three-digit group always yields at least one token.
pub proof fn lemma_group_tokens_nonempty(g: int)
    requires
        1 <= g < 1000,
    ensures
        group_tokens(g).len() > 0,
{
    if g / 100 == 0 {
        assert(g % 100 == g);
    }
}

proof fn lemma_upper_tokens_nonempty(m: nat, k: nat)
    requires
        m > 0,
    ensures
        upper_tokens(m, k).len() > 0,
    decreases m,
{
    if m % 1000 != 0 {
        lemma_group_tokens_nonempty((m % 1000) as int);
    } else {
        lemma_upper_tokens_nonempty(m / 1000, k + 1);
    }
}

/// A non-zero number always yields at least one token.
pub proof fn lemma_cardinal_tokens_nonempty(n: nat)
    requires
        n > 0,
    ensures
        cardinal_tokens(n).len() > 0,
{
    if n % 1000 != 0 {
        lemma_group_tokens_nonempty((n % 1000) as int);
    } else {
        lemma_upper_tokens_nonempty(n / 1000, 1);
    }
}

proof fn lemma_upper_tokens_wf(m: nat, k: nat)
    requires
        1 <= k,
        m * pow1000(k) <= u128::MAX as nat,
    ensures
        forall|i: int|
            0 <= i < upper_tokens(m, k).len() ==> token_wf(#[trigger] upper_tokens(m, k)[i]),
    decreases m,
{
    if m > 0 {
        lemma_period_index_bound(m, k);
        lemma_next_period_bound(m, k);
        lemma_upper_tokens_wf(m / 1000, (k + 1) as nat);
        let up = upper_tokens(m / 1000, (k + 1) as nat);
        let whole = upper_tokens(m, k);
        if m % 1000 != 0 {
            lemma_group_tokens_wf((m % 1000) as int);
            lemma_period_name_wf(k as int);
            let grp = group_tokens((m % 1000) as int);
            assert forall|i: int| 0 <= i < whole.len() implies token_wf(whole[i]) by {
                if i < up.len() {
                    assert(whole[i] == up[i]);
                } else if i - up.len() < grp.len() {
                    assert(whole[i] == grp[i - up.len()]);
                } else {
                    assert(whole[i] == period_name(k as int));
                }
            }
        } else {
            assert forall|i: int| 0 <= i < whole.len() implies token_wf(whole[i]) by {
                assert(whole[i] == up[i]);
            }
        }
    }
}

/// Every cardinal token of a representable number is a non-empty word free
/// of digit characters.
pub proof fn lemma_cardinal_tokens_wf(n: nat)
    requires
        n <= u128::MAX as nat,
    ensures
        forall|i: int|
            0 <= i < cardinal_tokens(n).len() ==> token_wf(#[trigger] cardinal_tokens(n)[i]),
{
    assert(pow1000(1) == 1000) by {
        reveal_with_fuel(pow1000, 2);
    }
    assert((n / 1000) * 1000 <= n);
    lemma_upper_tokens_wf(n / 1000, 1);
    lemma_group_tokens_wf((n % 1000) as int);
    let up = upper_tokens(n / 1000, 1);
    let grp = group_tokens((n % 1000) as int);
    let ts = cardinal_tokens(n);
    assert forall|i: int| 0 <= i < ts.len() implies token_wf(ts[i]) by {
        if i < up.len() {
            assert(ts[i] == up[i]);
        } else {
            assert(ts[i] == grp[i - up.len()]);
        }
    }
}

/// The cardinal words of any representable number are non-empty and contain
/// no digit characters.
pub proof fn lemma_to_words_wf(n: nat)
    requires
        n <= u128::MAX as nat,
    ensures
        to_words_spec(n).len() > 0,
        no_digit_chars(to_words_spec(n)),
{
    if n == 0 {
        reveal_strlit("zero");
    } else {
        lemma_cardinal_tokens_wf(n);
        lemma_cardinal_tokens_nonempty(n);
        lemma_join_wf(cardinal_tokens(n));
    }
}

/// Sign symmetry: the words of a negative number are exactly "negative ",
/// then the words of its absolute value.  The absolute value is taken in
/// unbounded arithmetic, so this also states the form each signed width's
/// minimum takes.
pub proof fn lemma_sign_symmetry(n: int)
    requires
        n < 0,
    ensures
        to_words_signed_spec(n) == "negative"@ + " "@ + to_words_spec((-n) as nat),
{
    let ts = cardinal_tokens((-n) as nat);
    lemma_cardinal_tokens_nonempty((-n) as nat);
    let all = seq!["negative"@] + ts;
    assert(all.drop_first() =~= ts);
    assert(all[0] == "negative"@);
    assert(spec_join(all) == "negative"@ + " "@ + spec_join(ts));
}

/// The minimum of each signed width renders as "negative " followed by the
/// words of its exact magnitude — one beyond the width's maximum — even
/// though that magnitude has no representation in the signed width itself.
pub proof fn lemma_most_negative(n: int)
    requires
        n == i8::MIN || n == i16::MIN || n == i32::MIN || n == i64::MIN || n == i128::MIN,
    ensures
        to_words_signed_spec(n) == "negative"@ + " "@ + to_words_spec((-n) as nat),
{
    lemma_sign_symmetry(n);
}

/// Converts any `u128` value to its cardinal English form.
pub fn u128_to_words(n: u128) -> (r: String)
    ensures
        r@ == to_words_spec(n as nat),
{
    if n == 0 {
        return String::from_str("zero");
    }
    let mut tokens: Vec<String> = Vec::new();
    proof {
        assert(tokens.deep_view() =~= Seq::<Seq<char>>::empty());
    }
    push_number(n, &mut tokens);
    proof {
        assert(Seq::<Seq<char>>::empty() + cardinal_tokens(n as nat) =~= cardinal_tokens(
            n as nat,
        ));
    }
    join_all(&tokens)
}

/// Converts any `u64` value to its cardinal English form.
pub fn u64_to_words(n: u64) -> (r: String)
    ensures
        r@ == to_words_spec(n as nat),
{
    u128_to_words(n as u128)
}

/// Converts any `u32` value to its cardinal English form.
pub fn u32_to_words(n: u32) -> (r: String)
    ensures
        r@ == to_words_spec(n as nat),
{
    u128_to_words(n as u128)
}

/// Converts any `u16` value to its cardinal English form.
pub fn u16_to_words(n: u16) -> (r: String)
    ensures
        r@ == to_words_spec(n as nat),
{
    u128_to_words(n as u128)
}

/// Converts any `u8` value to its cardinal English form.
pub fn u8_to_words(n: u8) -> (r: String)
    ensures
        r@ == to_words_spec(n as nat),
{
    u128_to_words(n as u128)
}

/// Converts any `usize` value to its cardinal English form.
pub fn usize_to_words(n: usize) -> (r: String)
    ensures
        r@ == to_words_spec(n as nat),
{
    u128_to_words(n as u128)
}

/// Converts any `i128` value to its cardinal English form.
pub fn i128_to_words(n: i128) -> (r: String)
    ensures
        r@ == to_words_signed_spec(n as int),
{
    if n == 0 {
        return String::from_str("zero");
    }
    let mut tokens: Vec<String> = Vec::new();
    proof {
        assert(tokens.deep_view() =~= Seq::<Seq<char>>::empty());
    }
    if n < 0 {
        push_token(&mut tokens, String::from_str("negative"));
        let magnitude: u128 = if n == i128::MIN {
            170141183460469231731687303715884105728u128
        } else {
            (-n) as u128
        };
        push_number(magnitude, &mut tokens);
        proof {
            assert(tokens.deep_view() =~= seq!["negative"@] + cardinal_tokens(
                (-(n as int)) as nat,
            ));
        }
        join_all(&tokens)
    } else {
        push_number(n as u128, &mut tokens);
        proof {
            assert(tokens.deep_view() =~= cardinal_tokens(n as nat));
        }
        join_all(&tokens)
    }
}

/// Converts any `i64` value to its cardinal English form.
pub fn i64_to_words(n: i64) -> (r: String)
    ensures
        r@ == to_words_signed_spec(n as int),
{
    i128_to_words(n as i128)
}

/// Converts any `i32` value to its cardinal English form.
pub fn i32_to_words(n: i32) -> (r: String)
    ensures
        r@ == to_words_signed_spec(n as int),
{
    i128_to_words(n as i128)
}

/// Converts any `i16` value to its cardinal English form.
pub fn i16_to_words(n: i16) -> (r: String)
    ensures
        r@ == to_words_signed_spec(n as int),
{
    i128_to_words(n as i128)
}

/// Converts any `i8` value to its cardinal English form.
pub fn i8_to_words(n: i8) -> (r: String)
    ensures
        r@ == to_words_signed_spec(n as int),
{
    i128_to_words(n as i128)
}

/// Converts any `isize` value to its cardinal English form.
pub fn isize_to_words(n: isize) -> (r: String)
    ensures
        r@ == to_words_signed_spec(n as int),
{
    i128_to_words(n as i128)
}

} // verus!
