//! Properties that tie the tokenizer's pieces together, stated and proved
//! over the same specifications the functions' contracts use.

use vstd::prelude::*;

use crate::classify::{
    spec_classify,
    spec_tokenize,
    spec_tokenize_words,
    is_var_word,
    is_float_word,
    is_int_word,
};
use crate::segment::{
    spec_segment,
    survives,
    lemma_survivor_len,
};
use crate::tables::{spec_operators, is_operator_word, spec_is_keyword, lemma_operators_distinct};
use crate::token::TokenView;

verus! {

/// Classification is deterministic and total over its rule chain — the
/// outcome is a function of the word alone, and every word gets exactly one
/// outcome — and the operator table overlaps neither the identifier pattern
/// nor the keyword table: a word from the operator table is read as an
/// operator and nothing else.
pub proof fn lemma_operator_classification(w: Seq<char>)
    ensures
        is_operator_word(w) ==> !is_var_word(w),
        is_operator_word(w) ==> !spec_is_keyword(w),
        is_operator_word(w) ==> spec_classify(w) == Result::<TokenView, Seq<char>>::Ok(
            TokenView::Operator(w),
        ),
{
    if is_operator_word(w) {
        reveal_strlit("if");
        reveal_strlit("else");
        reveal_strlit("for");
        reveal_strlit("true");
        reveal_strlit("false");
        let j = choose|j: int|
            0 <= j < spec_operators().len() && #[trigger] spec_operators()[j] == w;
        assert(!is_var_word(w));
        assert(!spec_is_keyword(w));
        assert(w != "true"@ && w != "false"@);
        assert(!is_float_word(w));
        assert(!is_int_word(w));
    }
}

/// A word of the keyword table is read as a keyword, never as an
/// identifier: the keyword rule stands first in the chain.
pub proof fn lemma_keyword_classification(w: Seq<char>)
    ensures
        spec_is_keyword(w) ==> spec_classify(w) == Result::<TokenView, Seq<char>>::Ok(
            TokenView::Keyword(w),
        ),
{
}

/// At most one operator-table entry survives disambiguation at any input
/// position: the "more than one equally specific match" failure — possible
/// only for a malformed table with duplicate equal-length entries — cannot
/// arise for this table.
pub proof fn lemma_survivor_unique(rem: Seq<char>, k1: int, k2: int)
    requires
        survives(k1, rem),
        survives(k2, rem),
    ensures
        k1 == k2,
{
    lemma_survivor_len(rem, k1);
    lemma_survivor_len(rem, k2);
    assert(spec_operators()[k1] =~= spec_operators()[k2]);
    lemma_operators_distinct();
}

/// When every word classifies, classification yields exactly one token per
/// word: the token count equals the word count.
pub proof fn lemma_token_count(ws: Seq<Seq<char>>)
    ensures
        spec_tokenize_words(ws) matches Result::Ok(ts) ==> ts.len() == ws.len(),
    decreases ws.len(),
{
    if ws.len() > 0 {
        lemma_token_count(ws.drop_first());
    }
}

/// Segmenting and then classifying reconstructs one token per segmented
/// unit: on any input the tokenizer accepts, the token count equals the
/// count of whitespace-delimited-or-operator-delimited units.
pub proof fn lemma_round_trip_count(s: Seq<char>)
    ensures
        spec_tokenize(s) matches Result::Ok(ts) ==> ts.len() == spec_segment(s).len(),
{
    lemma_token_count(spec_segment(s));
}

} // verus!

