//! Tokens, the token cursor, and the tokenizer entry points.

use vstd::prelude::*;

use vstd::string::StringExecFns;

use crate::chars::{str_to_chars, chars_to_string, is_space, str_eq, chars_eq};
use crate::classify::{
    spec_classify,
    spec_tokenize,
    spec_tokenize_words,
    int_error_msg,
    token_error_msg,
    word_is_float,
    word_is_int,
    word_is_var,
    parse_int_word,
};
use crate::segment::{
    spec_segment,
    spec_segment_from,
    flush,
    check_separator,
    lemma_op_match_upto_le,
};
use crate::tables::{spec_operators, operators, is_operator_word};

verus! {

broadcast use vstd::seq_lib::group_seq_properties;

/// A classified unit of lexical meaning with its payload. A float literal
/// carries its lexeme: the characters of the literal exactly as they stood
/// in the source.
#[derive(Debug, PartialEq, Eq)]
pub enum Token {
    Int(i32),
    Float(String),
    Bool(bool),
    Keyword(String),
    Operator(String),
    Variable(String),
}

/// The mathematical value of a `Token`: integer payloads as `int`, string
/// payloads as character sequences.
pub enum TokenView {
    Int(int),
    Float(Seq<char>),
    Bool(bool),
    Keyword(Seq<char>),
    Operator(Seq<char>),
    Variable(Seq<char>),
}

impl View for Token {
    type V = TokenView;

    open spec fn view(&self) -> TokenView {
        match self {
            Token::Int(v) => TokenView::Int(*v as int),
            Token::Float(s) => TokenView::Float(s@),
            Token::Bool(b) => TokenView::Bool(*b),
            Token::Keyword(s) => TokenView::Keyword(s@),
            Token::Operator(s) => TokenView::Operator(s@),
            Token::Variable(s) => TokenView::Variable(s@),
        }
    }
}

impl DeepView for Token {
    type V = TokenView;

    open spec fn deep_view(&self) -> TokenView {
        self.view()
    }
}

impl Clone for Token {
    /// Cloning keeps the token's value.
    fn clone(&self) -> (r: Token)
        ensures
            r@ == self@,
    {
        match self {
            Token::Int(v) => Token::Int(*v),
            Token::Float(s) => Token::Float(s.clone()),
            Token::Bool(b) => Token::Bool(*b),
            Token::Keyword(s) => Token::Keyword(s.clone()),
            Token::Operator(s) => Token::Operator(s.clone()),
            Token::Variable(s) => Token::Variable(s.clone()),
        }
    }
}

/// The character for a single decimal digit value.
pub open spec fn char_of_digit(d: int) -> char {
    if d == 0 {
        '0'
    } else if d == 1 {
        '1'
    } else if d == 2 {
        '2'
    } else if d == 3 {
        '3'
    } else if d == 4 {
        '4'
    } else if d == 5 {
        '5'
    } else if d == 6 {
        '6'
    } else if d == 7 {
        '7'
    } else if d == 8 {
        '8'
    } else {
        '9'
    }
}

/// Decimal rendering of a non-negative value, most significant digit first,
/// without leading zeros (a lone `0` for zero).
pub open spec fn spec_udigits(n: int) -> Seq<char>
    decreases n,
{
    if n < 10 {
        seq![char_of_digit(n)]
    } else {
        spec_udigits(n / 10).push(char_of_digit(n % 10))
    }
}

/// Decimal rendering of a signed value.
pub open spec fn spec_int_string(v: int) -> Seq<char> {
    if v < 0 {
        seq!['-'] + spec_udigits(-v)
    } else {
        spec_udigits(v)
    }
}

/// The display form of a token: its kind and its payload in parentheses.
pub open spec fn spec_token_string(t: TokenView) -> Seq<char> {
    match t {
        TokenView::Int(v) => "(int "@ + spec_int_string(v) + ")"@,
        TokenView::Float(s) => "(float "@ + s + ")"@,
        TokenView::Bool(b) => if b {
            "(bool true)"@
        } else {
            "(bool false)"@
        },
        TokenView::Keyword(s) => "(keyword "@ + s + ")"@,
        TokenView::Operator(s) => "(operator '"@ + s + "')"@,
        TokenView::Variable(s) => "(variable "@ + s + ")"@,
    }
}

/// Appends the decimal digits of `n` to `out`.
fn push_udigits(n: u32, out: &mut Vec<char>)
    ensures
        final(out)@ == old(out)@ + spec_udigits(n as int),
    decreases n,
{
    if n >= 10 {
        push_udigits(n / 10, out);
    }
    let d = (n % 10) as u8;
    let c = (48 + d) as char;
    proof {
        assert(c == char_of_digit(n as int % 10));
        if n < 10 {
            assert(old(out)@ + spec_udigits(n as int) =~= old(out)@.push(c));
        } else {
            assert(old(out)@ + spec_udigits(n as int) =~= (old(out)@ + spec_udigits(
                n as int / 10,
            )).push(c));
        }
    }
    out.push(c);
}

/// A list of tokens that can be streamed in a queue: an immutable sequence
/// together with the one piece of mutable state, a read index that only
/// `pop` advances and `reset` rewinds.
#[derive(Debug)]
pub struct TokenList {
    /// The tokens, in the order the tokenizer produced them.
    pub tokens: Vec<Token>,
    /// The current read index into `tokens`.
    ind: usize,
}

impl TokenList {
    /// The token sequence the cursor reads.
    pub closed spec fn spec_tokens(&self) -> Seq<Token> {
        self.tokens@
    }

    /// The read position.
    pub closed spec fn spec_ind(&self) -> int {
        self.ind as int
    }

    /// The cursor's invariant: the read position stays between the start
    /// and one past the last token.
    pub open spec fn wf(&self) -> bool {
        0 <= self.spec_ind() <= self.spec_tokens().len()
    }

    /// Returns a new `TokenList` over `tokens`, positioned at the start.
    pub fn new(tokens: Vec<Token>) -> (r: TokenList)
        ensures
            r.spec_tokens() == tokens@,
            r.spec_ind() == 0,
            r.wf(),
    {
        TokenList { tokens, ind: 0 }
    }

    /// Moves the read position back to the start; the sequence itself is
    /// untouched.
    pub fn reset(&mut self)
        ensures
            final(self).spec_tokens() == old(self).spec_tokens(),
            final(self).spec_ind() == 0,
            final(self).wf(),
    {
        self.ind = 0;
    }

    /// True exactly when a token remains to be read.
    pub fn available(&self) -> (r: bool)
        ensures
            r == (self.spec_ind() < self.spec_tokens().len()),
    {
        self.ind < self.tokens.len()
    }

    /// Returns the token at the read position without advancing; `None`
    /// exactly when none is available.
    pub fn peek(&self) -> (r: Option<Token>)
        ensures
            match r {
                Some(t) => self.spec_ind() < self.spec_tokens().len() && t@ == self.spec_tokens()[self.spec_ind()]@,
                None => self.spec_ind() >= self.spec_tokens().len(),
            },
    {
        if self.available() {
            Some(self.tokens[self.ind].clone())
        } else {
            None
        }
    }

    /// Returns the token at the read position and advances past it; when
    /// none is available, returns `None` and changes nothing.
    pub fn pop(&mut self) -> (r: Option<Token>)
        ensures
            final(self).spec_tokens() == old(self).spec_tokens(),
            match r {
                Some(t) => {
                    &&& old(self).spec_ind() < old(self).spec_tokens().len()
                    &&& t@ == old(self).spec_tokens()[old(self).spec_ind()]@
                    &&& final(self).spec_ind() == old(self).spec_ind() + 1
                },
                None => {
                    &&& old(self).spec_ind() >= old(self).spec_tokens().len()
                    &&& final(self).spec_ind() == old(self).spec_ind()
                },
            },
            old(self).wf() ==> final(self).wf(),
    {
        if self.available() {
            let val = self.peek();
            let n = self.tokens.len();
            proof {
                assert(self.ind < n);
            }
            self.ind = self.ind + 1;
            val
        } else {
            None
        }
    }
}

impl Token {
    /// Splits a string into words, separating on whitespace and on operator
    /// boundaries: each word is either a maximal run of characters that are
    /// neither whitespace nor the start of an operator match, or a single
    /// matched operator lexeme.
    pub fn split_tokens(input: &str) -> (words: Vec<String>)
        ensures
            words@.map_values(|w: String| w@) == spec_segment(input@),
    {
        let s = str_to_chars(input);
        let mut words: Vec<String> = Vec::new();
        let mut cur: Vec<char> = Vec::new();
        let mut i: usize = 0;
        while i < s.len()
            invariant
                s@ == input@,
                i <= s@.len(),
                words@.map_values(|w: String| w@) + spec_segment_from(s@, i as int, cur@)
                    == spec_segment(s@),
            decreases s@.len() - i,
        {
            let ghost pre = words@.map_values(|w: String| w@);
            let ghost pre_cur = cur@;
            let m = check_separator(&s, i);
            proof {
                lemma_op_match_upto_le(s@.skip(i as int), spec_operators().len() as int);
                assert(m <= s@.len() - i);
            }
            if m > 0 {
                proof {
                    assert(spec_segment_from(s@, i as int, cur@) == flush(cur@) + seq![
                        s@.subrange(i as int, i + m),
                    ] + spec_segment_from(s@, i + m, Seq::empty()));
                }
                if cur.len() > 0 {
                    let w = chars_to_string(&cur);
                    words.push(w);
                    cur = Vec::new();
                    proof {
                        assert(words@.map_values(|w: String| w@) =~= pre + flush(pre_cur));
                    }
                } else {
                    proof {
                        assert(words@.map_values(|w: String| w@) =~= pre + flush(pre_cur));
                    }
                }
                let mut opw: Vec<char> = Vec::new();
                let mut t: usize = 0;
                let slen = s.len();
                while t < m
                    invariant
                        slen == s@.len(),
                        i + m <= slen,
                        t <= m,
                        opw@ == s@.subrange(i as int, i + t),
                    decreases m - t,
                {
                    opw.push(s[i + t]);
                    t = t + 1;
                    proof {
                        assert(opw@ =~= s@.subrange(i as int, i + t));
                    }
                }
                let w = chars_to_string(&opw);
                words.push(w);
                proof {
                    assert(words@.map_values(|w: String| w@) =~= pre + flush(pre_cur) + seq![
                        s@.subrange(i as int, i + m),
                    ]);
                    assert(words@.map_values(|w: String| w@) + spec_segment_from(
                        s@,
                        i + m,
                        Seq::empty(),
                    ) =~= spec_segment(s@));
                }
                i = i + m;
            } else if is_space(s[i]) {
                proof {
                    assert(spec_segment_from(s@, i as int, cur@) == flush(cur@)
                        + spec_segment_from(s@, i + 1, Seq::empty()));
                }
                if cur.len() > 0 {
                    let w = chars_to_string(&cur);
                    words.push(w);
                    cur = Vec::new();
                }
                proof {
                    assert(words@.map_values(|w: String| w@) =~= pre + flush(pre_cur));
                    assert(words@.map_values(|w: String| w@) + spec_segment_from(
                        s@,
                        i + 1,
                        Seq::empty(),
                    ) =~= spec_segment(s@));
                }
                i = i + 1;
            } else {
                proof {
                    assert(spec_segment_from(s@, i as int, cur@) == spec_segment_from(
                        s@,
                        i + 1,
                        cur@.push(s@[i as int]),
                    ));
                }
                cur.push(s[i]);
                i = i + 1;
            }
        }
        if cur.len() > 0 {
            let ghost pre = words@.map_values(|w: String| w@);
            let w = chars_to_string(&cur);
            words.push(w);
            proof {
                assert(words@.map_values(|w: String| w@) =~= pre + flush(cur@));
            }
        } else {
            proof {
                assert(words@.map_values(|w: String| w@) + flush(cur@) =~= words@.map_values(
                    |w: String| w@,
                ));
            }
        }
        words
    }

    /// Builds the message reported for an integer literal out of range.
    fn int_error_message(word: &str) -> (m: String)
        ensures
            m@ == int_error_msg(word@),
    {
        let mut m = String::from_str("unable to parse token ");
        m.append(word);
        m.append(" as int");
        m
    }

    /// Builds the message reported for a word that no rule matches.
    fn token_error_message(word: &str) -> (m: String)
        ensures
            m@ == token_error_msg(word@),
    {
        let mut m = String::from_str("unable to parse ");
        m.append(word);
        m.append(" as a token");
        m
    }

    /// Classifies one word by the ordered rule chain: keyword, boolean
    /// literal, float literal, integer literal, operator, identifier; the
    /// first matching rule wins, and a word no rule matches fails.
    pub fn check_for_token(word: &str) -> (r: Result<Token, String>)
        ensures
            match r {
                Ok(t) => spec_classify(word@) == Result::<TokenView, Seq<char>>::Ok(t@),
                Err(m) => spec_classify(word@) == Result::<TokenView, Seq<char>>::Err(m@),
            },
    {
        if str_eq(word, "if") || str_eq(word, "else") || str_eq(word, "for") {
            return Ok(Token::Keyword(String::from_str(word)));
        }
        if str_eq(word, "true") {
            return Ok(Token::Bool(true));
        }
        if str_eq(word, "false") {
            return Ok(Token::Bool(false));
        }
        let w = str_to_chars(word);
        if word_is_float(&w) {
            return Ok(Token::Float(String::from_str(word)));
        }
        if word_is_int(&w) {
            match parse_int_word(&w) {
                Some(v) => {
                    return Ok(Token::Int(v));
                },
                None => {
                    return Err(Token::int_error_message(word));
                },
            }
        }
        let ops = operators();
        let n = ops.len();
        let mut j: usize = 0;
        while j < n
            invariant
                n == spec_operators().len(),
                ops@.len() == n,
                forall|k: int| 0 <= k < n ==> (#[trigger] ops@[k])@ == spec_operators()[k],
                j <= n,
                w@ == word@,
                !crate::tables::spec_is_keyword(word@),
                word@ != "true"@,
                word@ != "false"@,
                !crate::classify::is_float_word(word@),
                !crate::classify::is_int_word(word@),
                forall|k: int| 0 <= k < j ==> (#[trigger] spec_operators()[k]) != word@,
            decreases n - j,
        {
            if chars_eq(&w, &ops[j]) {
                proof {
                    assert(spec_operators()[j as int] == word@);
                }
                return Ok(Token::Operator(String::from_str(word)));
            }
            proof {
                assert((ops@[j as int])@ == spec_operators()[j as int]);
            }
            j = j + 1;
        }
        proof {
            assert(!is_operator_word(word@));
        }
        if word_is_var(&w) {
            return Ok(Token::Variable(String::from_str(word)));
        }
        Err(Token::token_error_message(word))
    }

    /// Tokenizes a string: segments it, classifies every word in order, and
    /// wraps the tokens in a cursor positioned at the start. The first
    /// classification failure aborts the whole call with that failure's
    /// message; no partial token list is returned.
    pub fn tokenize(input: &str) -> (r: Result<TokenList, String>)
        ensures
            match r {
                Ok(tl) => spec_tokenize(input@) == Result::<Seq<TokenView>, Seq<char>>::Ok(
                    tl.spec_tokens().map_values(|t: Token| t@),
                ) && tl.spec_ind() == 0,
                Err(m) => spec_tokenize(input@) == Result::<Seq<TokenView>, Seq<char>>::Err(m@),
            },
    {
        let words = Token::split_tokens(input);
        let ghost ws = spec_segment(input@);
        let mut tokens: Vec<Token> = Vec::new();
        let mut k: usize = 0;
        while k < words.len()
            invariant
                words@.map_values(|w: String| w@) == ws,
                ws == spec_segment(input@),
                k <= words@.len(),
                spec_tokenize_words(ws) == match spec_tokenize_words(ws.skip(k as int)) {
                    Result::Ok(rest) => Result::<Seq<TokenView>, Seq<char>>::Ok(
                        tokens@.map_values(|t: Token| t@) + rest,
                    ),
                    Result::Err(e) => Result::<Seq<TokenView>, Seq<char>>::Err(e),
                },
            decreases words@.len() - k,
        {
            let ghost pre = tokens@.map_values(|t: Token| t@);
            proof {
                assert(ws.skip(k as int).len() > 0);
                assert(ws.skip(k as int)[0] == ws[k as int]);
                assert(ws[k as int] == words@[k as int]@);
                assert(ws.skip(k as int).drop_first() =~= ws.skip(k as int + 1));
            }
            match Token::check_for_token(words[k].as_str()) {
                Ok(tok) => {
                    proof {
                        match spec_tokenize_words(ws.skip(k as int + 1)) {
                            Result::Ok(rest) => {
                                assert(pre + (seq![tok@] + rest) =~= pre.push(tok@) + rest);
                            },
                            Result::Err(_) => {},
                        }
                    }
                    tokens.push(tok);
                    proof {
                        assert(tokens@.map_values(|t: Token| t@) =~= pre.push(tok@));
                    }
                    k = k + 1;
                },
                Err(m) => {
                    return Err(m);
                },
            }
        }
        proof {
            assert(ws.skip(words@.len() as int) =~= Seq::<Seq<char>>::empty());
            assert(tokens@.map_values(|t: Token| t@) + Seq::<TokenView>::empty()
                =~= tokens@.map_values(|t: Token| t@));
        }
        Ok(TokenList::new(tokens))
    }

    /// Renders the token as `(kind payload)`.
    pub fn to_string(&self) -> (r: String)
        ensures
            r@ == spec_token_string(self@),
    {
        match self {
            Token::Int(v) => {
                let mut cs: Vec<char> = Vec::new();
                if *v < 0 {
                    cs.push('-');
                }
                let mag: u32 = if *v < 0 {
                    (-(*v as i64)) as u32
                } else {
                    *v as u32
                };
                push_udigits(mag, &mut cs);
                let digits = chars_to_string(&cs);
                let mut out = String::from_str("(int ");
                out.append(digits.as_str());
                out.append(")");
                proof {
                    assert(out@ =~= spec_token_string(self@));
                }
                out
            },
            Token::Float(s) => {
                let mut out = String::from_str("(float ");
                out.append(s.as_str());
                out.append(")");
                out
            },
            Token::Bool(b) => {
                if *b {
                    String::from_str("(bool true)")
                } else {
                    String::from_str("(bool false)")
                }
            },
            Token::Keyword(s) => {
                let mut out = String::from_str("(keyword ");
                out.append(s.as_str());
                out.append(")");
                out
            },
            Token::Operator(s) => {
                let mut out = String::from_str("(operator '");
                out.append(s.as_str());
                out.append("')");
                out
            },
            Token::Variable(s) => {
                let mut out = String::from_str("(variable ");
                out.append(s.as_str());
                out.append(")");
                out
            },
        }
    }
}

} // verus!
