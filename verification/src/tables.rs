//! The fixed operator table of the language, at the spec level and as an
//! executable value, with the well-formedness facts the segmenter's
//! disambiguation proof rests on.

use vstd::prelude::*;

verus! {

/// The operator lexemes of the language, in table order. Entries may share
/// a prefix (`=` and `==`, `!` and `!=`); the segmenter resolves that.
pub open spec fn spec_operators() -> Seq<Seq<char>> {
    seq![
        seq![';'],
        seq![','],
        seq!['('],
        seq![')'],
        seq!['{'],
        seq!['}'],
        seq!['+'],
        seq!['*'],
        seq!['-'],
        seq!['/'],
        seq!['='],
        seq!['&', '&'],
        seq!['|', '|'],
        seq!['=', '='],
        seq!['!', '='],
        seq!['!'],
    ]
}

/// A word is an operator exactly when it stands in the table.
pub open spec fn is_operator_word(w: Seq<char>) -> bool {
    exists|j: int| 0 <= j < spec_operators().len() && spec_operators()[j] == w
}

/// No two entries of the table are equal.
pub proof fn lemma_operators_distinct()
    ensures
        forall|i: int, j: int|
            0 <= i < j < spec_operators().len() ==> spec_operators()[i] != spec_operators()[j],
{
    assert forall|i: int, j: int|
        0 <= i < j < spec_operators().len() implies spec_operators()[i]
        != spec_operators()[j] by {
        let a = spec_operators()[i];
        let b = spec_operators()[j];
        assert(a.len() != b.len() || a[0] != b[0]);
    }
}

/// Every entry is one or two characters long.
pub proof fn lemma_operator_lengths()
    ensures
        forall|j: int|
            0 <= j < spec_operators().len() ==> 1 <= (#[trigger] spec_operators()[j]).len() <= 2,
{
}

/// The operator table as an executable value.
pub fn operators() -> (ops: Vec<Vec<char>>)
    ensures
        ops@.len() == spec_operators().len(),
        forall|j: int|
            0 <= j < ops@.len() ==> (#[trigger] ops@[j])@ == spec_operators()[j],
{
    let mut ops: Vec<Vec<char>> = Vec::new();
    ops.push(vec![';']);
    ops.push(vec![',']);
    ops.push(vec!['(']);
    ops.push(vec![')']);
    ops.push(vec!['{']);
    ops.push(vec!['}']);
    ops.push(vec!['+']);
    ops.push(vec!['*']);
    ops.push(vec!['-']);
    ops.push(vec!['/']);
    ops.push(vec!['=']);
    ops.push(vec!['&', '&']);
    ops.push(vec!['|', '|']);
    ops.push(vec!['=', '=']);
    ops.push(vec!['!', '=']);
    ops.push(vec!['!']);
    ops
}

/// The reserved words of the language.
pub open spec fn spec_is_keyword(w: Seq<char>) -> bool {
    w == "if"@ || w == "else"@ || w == "for"@
}

} // verus!
