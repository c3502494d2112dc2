//! Word classification: the ordered rule chain keyword, boolean literal,
//! float literal, integer literal, operator, identifier — first match wins —
//! together with the lexical patterns the numeric and identifier rules test.

use vstd::prelude::*;

use crate::chars::{
    is_digit_char,
    digit_of,
    is_alpha_char,
    is_alnum_char,
    is_digit,
    is_alpha,
    is_alnum,
};
use crate::tables::{spec_is_keyword, is_operator_word};
use crate::token::TokenView;

verus! {

broadcast use vstd::seq_lib::group_seq_properties;

/// Every character of `s` is a decimal digit.
pub open spec fn all_digits(s: Seq<char>) -> bool {
    forall|k: int| 0 <= k < s.len() ==> is_digit_char(#[trigger] s[k])
}

/// The word with a single leading minus removed, when one stands there.
pub open spec fn unsigned_part(w: Seq<char>) -> Seq<char> {
    if w.len() > 0 && w[0] == '-' {
        w.skip(1)
    } else {
        w
    }
}

/// The float-literal pattern: an optional leading minus, then digits with
/// exactly one decimal point and a digit on at least one of its sides.
pub open spec fn is_float_word(w: Seq<char>) -> bool {
    let u = unsigned_part(w);
    u.len() >= 2 && exists|k: int|
        0 <= k < u.len() && #[trigger] u[k] == '.' && all_digits(u.take(k)) && all_digits(
            u.skip(k + 1),
        )
}

/// The integer-literal pattern: an optional leading minus, then one or more
/// digits and nothing else.
pub open spec fn is_int_word(w: Seq<char>) -> bool {
    let u = unsigned_part(w);
    u.len() > 0 && all_digits(u)
}

/// The identifier pattern: a leading letter, then letters and digits.
pub open spec fn is_var_word(w: Seq<char>) -> bool {
    w.len() > 0 && is_alpha_char(w[0]) && (forall|k: int|
        1 <= k < w.len() ==> is_alnum_char(#[trigger] w[k]))
}

/// The value of a run of digits, most significant first.
pub open spec fn digits_val(s: Seq<char>) -> int
    decreases s.len(),
{
    if s.len() == 0 {
        0
    } else {
        digits_val(s.drop_last()) * 10 + digit_of(s.last())
    }
}

/// The signed value of a word matching the integer pattern.
pub open spec fn int_val(w: Seq<char>) -> int {
    if w.len() > 0 && w[0] == '-' {
        -digits_val(w.skip(1))
    } else {
        digits_val(w)
    }
}

/// The values a 32-bit signed integer can hold.
pub open spec fn in_i32_range(v: int) -> bool {
    -0x8000_0000 <= v <= 0x7fff_ffff
}

/// The message reported for an integer literal out of 32-bit range.
pub open spec fn int_error_msg(w: Seq<char>) -> Seq<char> {
    "unable to parse token "@ + w + " as int"@
}

/// The message reported for a word no rule matches.
pub open spec fn token_error_msg(w: Seq<char>) -> Seq<char> {
    "unable to parse "@ + w + " as a token"@
}

/// The outcome the classifier owes for a word: the rules applied in their
/// fixed priority order, first match wins; an integer literal out of 32-bit
/// range and a word matching no rule fail with their exact messages.
pub open spec fn spec_classify(w: Seq<char>) -> Result<TokenView, Seq<char>> {
    if spec_is_keyword(w) {
        Result::Ok(TokenView::Keyword(w))
    } else if w == "true"@ {
        Result::Ok(TokenView::Bool(true))
    } else if w == "false"@ {
        Result::Ok(TokenView::Bool(false))
    } else if is_float_word(w) {
        Result::Ok(TokenView::Float(w))
    } else if is_int_word(w) {
        if in_i32_range(int_val(w)) {
            Result::Ok(TokenView::Int(int_val(w)))
        } else {
            Result::Err(int_error_msg(w))
        }
    } else if is_operator_word(w) {
        Result::Ok(TokenView::Operator(w))
    } else if is_var_word(w) {
        Result::Ok(TokenView::Variable(w))
    } else {
        Result::Err(token_error_msg(w))
    }
}

/// The outcome of classifying each word in order: the tokens when every
/// word classifies, else the first failure's message.
pub open spec fn spec_tokenize_words(ws: Seq<Seq<char>>) -> Result<Seq<TokenView>, Seq<char>>
    decreases ws.len(),
{
    if ws.len() == 0 {
        Result::Ok(Seq::empty())
    } else {
        match spec_classify(ws[0]) {
            Result::Ok(t) => match spec_tokenize_words(ws.drop_first()) {
                Result::Ok(rest) => Result::Ok(seq![t] + rest),
                Result::Err(e) => Result::Err(e),
            },
            Result::Err(e) => Result::Err(e),
        }
    }
}

/// The outcome the tokenizer owes for an input: segment it, then classify
/// every word in order.
pub open spec fn spec_tokenize(s: Seq<char>) -> Result<Seq<TokenView>, Seq<char>> {
    spec_tokenize_words(crate::segment::spec_segment(s))
}

/// Digit runs have non-negative value.
pub proof fn lemma_digits_val_nonneg(s: Seq<char>)
    requires
        all_digits(s),
    ensures
        digits_val(s) >= 0,
    decreases s.len(),
{
    if s.len() > 0 {
        assert(all_digits(s.drop_last()));
        lemma_digits_val_nonneg(s.drop_last());
        assert(digit_of(s.last()) >= 0);
    }
}

/// Decides `is_float_word`.
#[verifier::rlimit(50)]
pub(crate) fn word_is_float(w: &Vec<char>) -> (r: bool)
    ensures
        r == is_float_word(w@),
{
    let ghost u = unsigned_part(w@);
    let n = w.len();
    let mut start: usize = 0;
    if n > 0 && w[0] == '-' {
        start = 1;
    }
    proof {
        assert(u == w@.skip(start as int));
    }
    let mut k = start;
    let mut dot_idx: usize = n;
    while k < n
        invariant
            n == w@.len(),
            start <= 1,
            start <= k <= n,
            u == w@.skip(start as int),
            u == unsigned_part(w@),
            u.len() == n - start,
            dot_idx == n || (start <= dot_idx < k && w@[dot_idx as int] == '.'),
            forall|j: int|
                start <= j < k && j != dot_idx ==> is_digit_char(#[trigger] w@[j]),
        decreases n - k,
    {
        let c = w[k];
        if c == '.' {
            if dot_idx < n {
                // A second decimal point: no candidate position works.
                proof {
                    assert forall|k2: int|
                        0 <= k2 < u.len() && #[trigger] u[k2] == '.' implies !(all_digits(
                        u.take(k2),
                    ) && all_digits(u.skip(k2 + 1))) by {
                        let d1: int = dot_idx as int - start as int;
                        let d2: int = k as int - start as int;
                        assert(u[d1] == '.' && u[d2] == '.');
                        if k2 != d1 {
                            if d1 < k2 {
                                assert(u.take(k2)[d1] == '.');
                            } else {
                                assert(u.skip(k2 + 1)[d1 - k2 - 1] == '.');
                            }
                        } else {
                            if d2 < k2 {
                                assert(u.take(k2)[d2] == '.');
                            } else {
                                assert(u.skip(k2 + 1)[d2 - k2 - 1] == '.');
                            }
                        }
                        assert(!is_digit_char('.'));
                    }
                }
                return false;
            }
            dot_idx = k;
        } else if !is_digit(c) {
            // Neither digit nor point: no candidate position works.
            proof {
                assert forall|k2: int|
                    0 <= k2 < u.len() && #[trigger] u[k2] == '.' implies !(all_digits(u.take(k2))
                    && all_digits(u.skip(k2 + 1))) by {
                    let d: int = k as int - start as int;
                    assert(u[d] == w@[k as int]);
                    assert(u[d] != '.');
                    if d < k2 {
                        assert(u.take(k2)[d] == u[d]);
                    } else {
                        assert(u.skip(k2 + 1)[d - k2 - 1] == u[d]);
                    }
                }
            }
            return false;
        }
        k = k + 1;
    }
    if dot_idx == n {
        // No decimal point at all.
        proof {
            if is_float_word(w@) {
                let k2 = choose|k2: int|
                    0 <= k2 < u.len() && #[trigger] u[k2] == '.' && all_digits(u.take(k2))
                        && all_digits(u.skip(k2 + 1));
                assert(w@[start + k2] == '.');
            }
        }
        return false;
    }
    let r = n - start >= 2;
    proof {
        if r {
            let d: int = dot_idx as int - start as int;
            assert(u[d] == '.');
            assert forall|j: int| 0 <= j < d implies is_digit_char(#[trigger] u.take(d)[j]) by {
                assert(u[j] == w@[start + j]);
            }
            assert forall|j: int|
                0 <= j < u.len() - d - 1 implies is_digit_char(#[trigger] u.skip(d + 1)[j]) by {
                assert(u[d + 1 + j] == w@[start + d + 1 + j]);
            }
            assert(is_float_word(w@));
        } else {
            assert(u.len() < 2);
        }
    }
    r
}

/// Decides `is_int_word`.
#[verifier::rlimit(50)]
pub(crate) fn word_is_int(w: &Vec<char>) -> (r: bool)
    ensures
        r == is_int_word(w@),
{
    let ghost u = unsigned_part(w@);
    let n = w.len();
    let mut start: usize = 0;
    if n > 0 && w[0] == '-' {
        start = 1;
    }
    proof {
        assert(u == w@.skip(start as int));
    }
    if start >= n {
        proof {
            assert(u.len() == 0);
        }
        return false;
    }
    let mut k = start;
    while k < n
        invariant
            n == w@.len(),
            start <= k <= n,
            u == w@.skip(start as int),
            u == unsigned_part(w@),
            u.len() == n - start,
            forall|j: int| start <= j < k ==> is_digit_char(#[trigger] w@[j]),
        decreases n - k,
    {
        if !is_digit(w[k]) {
            proof {
                assert(u[k - start] == w@[k as int]);
            }
            return false;
        }
        k = k + 1;
    }
    proof {
        assert forall|j: int| 0 <= j < u.len() implies is_digit_char(#[trigger] u[j]) by {
            assert(u[j] == w@[start + j]);
        }
    }
    true
}

/// Decides `is_var_word`.
pub(crate) fn word_is_var(w: &Vec<char>) -> (r: bool)
    ensures
        r == is_var_word(w@),
{
    let n = w.len();
    if n == 0 {
        return false;
    }
    if !is_alpha(w[0]) {
        return false;
    }
    let mut k: usize = 1;
    while k < n
        invariant
            n == w@.len(),
            1 <= k <= n,
            forall|j: int| 1 <= j < k ==> is_alnum_char(#[trigger] w@[j]),
        decreases n - k,
    {
        if !is_alnum(w[k]) {
            return false;
        }
        k = k + 1;
    }
    true
}

/// Parses a word matching the integer pattern into a 32-bit value; `None`
/// exactly when the value leaves the 32-bit range.
pub(crate) fn parse_int_word(w: &Vec<char>) -> (r: Option<i32>)
    requires
        is_int_word(w@),
    ensures
        match r {
            Some(v) => in_i32_range(int_val(w@)) && v as int == int_val(w@),
            None => !in_i32_range(int_val(w@)),
        },
{
    let ghost u = unsigned_part(w@);
    proof {
        assert(w@.len() > 0);
    }
    let n = w.len();
    let neg = w[0] == '-';
    let start: usize = if neg {
        1
    } else {
        0
    };
    proof {
        assert(u == w@.skip(start as int));
        assert(all_digits(u));
    }
    let mut mag: u64 = 0;
    let mut over = false;
    let mut k = start;
    while k < n
        invariant
            n == w@.len(),
            start <= k <= n,
            u == w@.skip(start as int),
            u == unsigned_part(w@),
            all_digits(u),
            u.len() == n - start,
            !over ==> mag == digits_val(u.take(k - start)) && mag <= 0x8000_0000u64 * 10 + 9,
            over ==> digits_val(u.take(k - start)) > 0x8000_0000,
        decreases n - k,
    {
        let ghost pre = u.take(k - start);
        let ghost now = u.take(k + 1 - start);
        proof {
            assert(u[k - start] == w@[k as int]);
            assert(is_digit_char(w@[k as int]));
            assert(now.drop_last() =~= pre);
            assert(now.last() == u[k - start]);
            lemma_digits_val_nonneg(pre);
        }
        let c = w[k];
        let d = (c as u32) - 48;
        if mag > 0x8000_0000 {
            over = true;
            proof {
                assert(digits_val(now) == digits_val(pre) * 10 + digit_of(u[k - start]));
            }
        } else {
            if over {
                proof {
                    lemma_digits_val_nonneg(now.drop_last());
                    assert(digits_val(now) >= digits_val(pre));
                }
            } else {
                mag = mag * 10 + d as u64;
            }
        }
        k = k + 1;
    }
    proof {
        assert(u.take(n - start) =~= u);
    }
    if over || mag > 0x8000_0000 {
        proof {
            lemma_digits_val_nonneg(u);
        }
        return None;
    }
    if neg {
        if mag == 0x8000_0000 {
            Some(i32::MIN)
        } else {
            Some(-(mag as i32))
        }
    } else {
        if mag > 0x7fff_ffff {
            None
        } else {
            Some(mag as i32)
        }
    }
}

} // verus!
