//! Operator disambiguation and segmentation.
//!
//! At each input position the segmenter asks which operator-table entries
//! still match ("maximal munch"): candidates are seeded by length, pruned by
//! prefix comparison, and a candidate that is a strict prefix of another
//! remaining candidate is dropped in favour of the longer one. The proofs
//! here show that for the fixed, duplicate-free table this procedure leaves
//! at most one candidate, whose length is `op_match_len` — so the
//! "more than one equally specific match" failure of a malformed table can
//! never arise.

use vstd::prelude::*;
use vstd::pervasive::VecAdditionalExecFns;

use crate::chars::is_space_char;
use crate::tables::{spec_operators, operators, lemma_operators_distinct, lemma_operator_lengths};

verus! {

broadcast use vstd::seq_lib::group_seq_properties;

/// `p` stands at the start of `s`.
pub open spec fn is_prefix_of(p: Seq<char>, s: Seq<char>) -> bool {
    p.len() <= s.len() && p == s.take(p.len() as int)
}

/// `p` stands at the start of `s` and is shorter than `s`.
pub open spec fn is_strict_prefix_of(p: Seq<char>, s: Seq<char>) -> bool {
    p.len() < s.len() && p == s.take(p.len() as int)
}

/// Table entry `k` matches at the start of `rem`.
pub open spec fn prefix_at(k: int, rem: Seq<char>) -> bool {
    is_prefix_of(spec_operators()[k], rem)
}

/// Entry `k` is a strict prefix of some other entry that also matches `rem`,
/// so the longer entry wins.
pub open spec fn shadowed_by_longer(k: int, rem: Seq<char>) -> bool {
    exists|l: int|
        0 <= l < spec_operators().len() && #[trigger] prefix_at(l, rem) && is_strict_prefix_of(
            spec_operators()[k],
            spec_operators()[l],
        )
}

/// Entry `k` survives disambiguation at `rem`.
pub open spec fn survives(k: int, rem: Seq<char>) -> bool {
    &&& 0 <= k < spec_operators().len()
    &&& prefix_at(k, rem)
    &&& !shadowed_by_longer(k, rem)
}

/// Length of the longest entry among the first `j` that matches at the
/// start of `s`; `0` when none does.
pub open spec fn op_match_len_upto(s: Seq<char>, j: int) -> nat
    decreases j,
{
    if j <= 0 {
        0
    } else {
        let prev = op_match_len_upto(s, j - 1);
        if 0 <= j - 1 < spec_operators().len() && is_prefix_of(spec_operators()[j - 1], s)
            && spec_operators()[j - 1].len() > prev {
            spec_operators()[j - 1].len()
        } else {
            prev
        }
    }
}

/// Length of the longest operator matching at the start of `s`; `0` when no
/// operator matches there. This is the "maximal munch" length the segmenter
/// consumes.
pub open spec fn op_match_len(s: Seq<char>) -> nat {
    op_match_len_upto(s, spec_operators().len() as int)
}

/// The match length never exceeds the remaining input.
pub proof fn lemma_op_match_upto_le(s: Seq<char>, j: int)
    ensures
        op_match_len_upto(s, j) <= s.len(),
    decreases j,
{
    if j > 0 {
        lemma_op_match_upto_le(s, j - 1);
    }
}

/// Any matching entry bounds the match length from below.
pub proof fn lemma_op_match_upto_ge(s: Seq<char>, j: int, k: int)
    requires
        0 <= k < j,
        k < spec_operators().len(),
        is_prefix_of(spec_operators()[k], s),
    ensures
        op_match_len_upto(s, j) >= spec_operators()[k].len(),
    decreases j,
{
    if k < j - 1 {
        lemma_op_match_upto_ge(s, j - 1, k);
    }
}

/// A positive match length is witnessed by a matching entry of that length.
pub proof fn lemma_op_match_upto_witness(s: Seq<char>, j: int)
    requires
        op_match_len_upto(s, j) > 0,
    ensures
        exists|k: int|
            0 <= k < j && k < spec_operators().len() && #[trigger] prefix_at(k, s)
                && spec_operators()[k].len() == op_match_len_upto(s, j),
    decreases j,
{
    if j > 0 {
        if op_match_len_upto(s, j - 1) == op_match_len_upto(s, j) {
            lemma_op_match_upto_witness(s, j - 1);
        } else {
            assert(prefix_at(j - 1, s));
        }
    }
}

/// A surviving entry has exactly the maximal-munch length.
pub proof fn lemma_survivor_len(rem: Seq<char>, k: int)
    requires
        survives(k, rem),
    ensures
        spec_operators()[k].len() == op_match_len(rem),
{
    let n = spec_operators().len() as int;
    lemma_op_match_upto_ge(rem, n, k);
    let m = op_match_len(rem);
    if spec_operators()[k].len() < m {
        lemma_op_match_upto_witness(rem, n);
        let l = choose|l: int|
            0 <= l < n && #[trigger] prefix_at(l, rem) && spec_operators()[l].len() == m;
        assert(spec_operators()[k] =~= spec_operators()[l].take(
            spec_operators()[k].len() as int,
        ));
        assert(is_strict_prefix_of(spec_operators()[k], spec_operators()[l]));
        assert(shadowed_by_longer(k, rem));
    }
}

/// When nothing survives, no entry matches at all.
pub proof fn lemma_no_survivor(rem: Seq<char>)
    requires
        forall|k: int| !survives(k, rem),
    ensures
        op_match_len(rem) == 0,
{
    let n = spec_operators().len() as int;
    if op_match_len(rem) > 0 {
        lemma_op_match_upto_witness(rem, n);
        let l = choose|l: int|
            0 <= l < n && #[trigger] prefix_at(l, rem) && spec_operators()[l].len()
                == op_match_len(rem);
        assert(!survives(l, rem));
        let l2 = choose|l2: int|
            0 <= l2 < n && #[trigger] prefix_at(l2, rem) && is_strict_prefix_of(
                spec_operators()[l],
                spec_operators()[l2],
            );
        lemma_op_match_upto_ge(rem, n, l2);
    }
}

/// The word list a pending accumulator contributes: the word itself when
/// something has accumulated, nothing otherwise.
pub open spec fn flush(acc: Seq<char>) -> Seq<Seq<char>> {
    if acc.len() > 0 {
        seq![acc]
    } else {
        Seq::empty()
    }
}

/// The words the segmenter emits scanning `s` from position `i`, with `acc`
/// holding the partial word accumulated so far: an operator match flushes
/// the accumulator and stands as a word of its own, whitespace flushes and
/// is dropped, and any other character extends the accumulator.
pub open spec fn spec_segment_from(s: Seq<char>, i: int, acc: Seq<char>) -> Seq<Seq<char>>
    decreases s.len() - i,
        via spec_segment_from_decreases
{
    if !(0 <= i < s.len()) {
        flush(acc)
    } else {
        let m = op_match_len(s.skip(i)) as int;
        if m > 0 {
            flush(acc) + seq![s.subrange(i, i + m)] + spec_segment_from(s, i + m, Seq::empty())
        } else if is_space_char(s[i]) {
            flush(acc) + spec_segment_from(s, i + 1, Seq::empty())
        } else {
            spec_segment_from(s, i + 1, acc.push(s[i]))
        }
    }
}

#[via_fn]
proof fn spec_segment_from_decreases(s: Seq<char>, i: int, acc: Seq<char>) {
    if 0 <= i < s.len() {
        lemma_op_match_upto_le(s.skip(i), spec_operators().len() as int);
    }
}

/// The words the segmenter emits for the whole of `s`.
pub open spec fn spec_segment(s: Seq<char>) -> Seq<Seq<char>> {
    spec_segment_from(s, 0, Seq::empty())
}

/// True when `op` matches the characters of `s` starting at `start`.
pub(crate) fn match_at(s: &Vec<char>, start: usize, op: &Vec<char>) -> (r: bool)
    requires
        start <= s@.len(),
    ensures
        r == is_prefix_of(op@, s@.skip(start as int)),
{
    let ghost rem = s@.skip(start as int);
    let slen = s.len();
    if op.len() > slen - start {
        return false;
    }
    let mut t: usize = 0;
    while t < op.len()
        invariant
            slen == s@.len(),
            start + op@.len() <= slen,
            t <= op@.len(),
            rem == s@.skip(start as int),
            forall|k: int| 0 <= k < t ==> op@[k] == rem[k],
        decreases op@.len() - t,
    {
        if op[t] != s[start + t] {
            proof {
                assert(rem[t as int] == s@[start + t]);
                assert(rem.take(op@.len() as int)[t as int] != op@[t as int]);
            }
            return false;
        }
        t = t + 1;
    }
    proof {
        assert(op@ =~= rem.take(op@.len() as int));
    }
    true
}

/// Runs the candidate-elimination disambiguation at position `start` of `s`
/// and returns the number of characters the matched operator consumes, or
/// `0` when no operator matches there.
pub(crate) fn check_separator(s: &Vec<char>, start: usize) -> (r: usize)
    requires
        start <= s@.len(),
    ensures
        r == op_match_len(s@.skip(start as int)),
{
    let ghost rem = s@.skip(start as int);
    let ops = operators();
    let n = ops.len();
    let rem_len = s.len() - start;

    // Seed candidates: every entry no longer than the remaining input.
    let mut possible: Vec<bool> = Vec::new();
    let mut j: usize = 0;
    while j < n
        invariant
            n == spec_operators().len(),
            ops@.len() == n,
            forall|k: int| 0 <= k < n ==> (#[trigger] ops@[k])@ == spec_operators()[k],
            rem.len() == rem_len,
            j <= n,
            possible@.len() == j,
            forall|k: int| 0 <= k < j ==> possible@[k] == (spec_operators()[k].len() <= rem.len()),
        decreases n - j,
    {
        possible.push(ops[j].len() <= rem_len);
        j = j + 1;
    }

    // The longest entry length bounds the comparison sizes.
    let mut max_len: usize = 0;
    j = 0;
    while j < n
        invariant
            n == spec_operators().len(),
            ops@.len() == n,
            forall|k: int| 0 <= k < n ==> (#[trigger] ops@[k])@ == spec_operators()[k],
            j <= n,
            forall|k: int| 0 <= k < j ==> (#[trigger] spec_operators()[k]).len() <= max_len,
            max_len == 0 || exists|k: int|
                0 <= k < j && (#[trigger] spec_operators()[k]).len() == max_len,
        decreases n - j,
    {
        if ops[j].len() > max_len {
            max_len = ops[j].len();
            proof {
                assert((ops@[j as int])@ == spec_operators()[j as int]);
                assert(spec_operators()[j as int].len() == max_len);
            }
        }
        j = j + 1;
    }
    proof {
        lemma_operator_lengths();
        assert(max_len <= 2);
    }

    // Prune: a candidate of each length must equal the input's prefix of
    // that length.
    let bound = if max_len < rem_len {
        max_len
    } else {
        rem_len
    };
    let mut size: usize = 1;
    while size <= bound
        invariant
            n == spec_operators().len(),
            ops@.len() == n,
            forall|k: int| 0 <= k < n ==> (#[trigger] ops@[k])@ == spec_operators()[k],
            start <= s@.len(),
            rem == s@.skip(start as int),
            rem.len() == rem_len,
            bound <= rem_len,
            bound <= 2,
            1 <= size <= bound + 1,
            possible@.len() == n,
            forall|k: int|
                0 <= k < n ==> (#[trigger] possible@[k]) == (spec_operators()[k].len()
                    <= rem.len() && (spec_operators()[k].len() < size ==> prefix_at(k, rem))),
        decreases bound + 1 - size,
    {
        j = 0;
        while j < n
            invariant
                n == spec_operators().len(),
                ops@.len() == n,
                forall|k: int| 0 <= k < n ==> (#[trigger] ops@[k])@ == spec_operators()[k],
                start <= s@.len(),
                rem == s@.skip(start as int),
                1 <= size <= rem.len(),
                j <= n,
                possible@.len() == n,
                forall|k: int|
                    j <= k < n ==> (#[trigger] possible@[k]) == (spec_operators()[k].len()
                        <= rem.len() && (spec_operators()[k].len() < size ==> prefix_at(k, rem))),
                forall|k: int|
                    0 <= k < j ==> (#[trigger] possible@[k]) == (spec_operators()[k].len()
                        <= rem.len() && (spec_operators()[k].len() <= size ==> prefix_at(k, rem))),
            decreases n - j,
        {
            proof {
                assert((ops@[j as int])@ == spec_operators()[j as int]);
            }
            if possible[j] && ops[j].len() == size {
                if !match_at(s, start, &ops[j]) {
                    possible.set(j, false);
                }
            }
            proof {
                assert(possible@[j as int] == (spec_operators()[j as int].len() <= rem.len() && (
                spec_operators()[j as int].len() <= size ==> prefix_at(j as int, rem))));
            }
            j = j + 1;
        }
        size = size + 1;
    }

    proof {
        // After pruning, the flags say exactly "matches at `rem`".
        assert forall|k: int| 0 <= k < n implies possible@[k] == prefix_at(k, rem) by {
            if spec_operators()[k].len() > rem.len() {
                assert(!prefix_at(k, rem));
            } else {
                assert(spec_operators()[k].len() <= max_len);
                assert(spec_operators()[k].len() < size);
            }
        }
    }

    // Drop any candidate that is a strict prefix of another remaining one.
    let matched = possible.clone();
    j = 0;
    while j < n
        invariant
            n == spec_operators().len(),
            ops@.len() == n,
            forall|k: int| 0 <= k < n ==> (#[trigger] ops@[k])@ == spec_operators()[k],
            matched@.len() == n,
            possible@.len() == n,
            forall|k: int| 0 <= k < n ==> matched@[k] == prefix_at(k, rem),
            forall|k: int| j <= k < n ==> possible@[k] == prefix_at(k, rem),
            forall|k: int| 0 <= k < j ==> possible@[k] == survives(k, rem),
        decreases n - j,
    {
        if possible[j] {
            let mut l: usize = 0;
            while l < n
                invariant
                    n == spec_operators().len(),
                    ops@.len() == n,
                    forall|k: int| 0 <= k < n ==> (#[trigger] ops@[k])@ == spec_operators()[k],
                    j < n,
                    l <= n,
                    matched@.len() == n,
                    possible@.len() == n,
                    forall|k: int| 0 <= k < n ==> matched@[k] == prefix_at(k, rem),
                    forall|k: int| j < k < n ==> possible@[k] == prefix_at(k, rem),
                    forall|k: int| 0 <= k < j ==> possible@[k] == survives(k, rem),
                    prefix_at(j as int, rem),
                    possible@[j as int] == !(exists|l2: int|
                        0 <= l2 < l && #[trigger] prefix_at(l2, rem) && is_strict_prefix_of(
                            spec_operators()[j as int],
                            spec_operators()[l2],
                        )),
                decreases n - l,
            {
                proof {
                    assert((ops@[j as int])@ == spec_operators()[j as int]);
                    assert((ops@[l as int])@ == spec_operators()[l as int]);
                    assert(matched@[l as int] == prefix_at(l as int, rem));
                }
                if matched[l] && ops[j].len() < ops[l].len() {
                    let pref = match_at(&ops[l], 0, &ops[j]);
                    proof {
                        assert(ops@[l as int]@.skip(0) =~= ops@[l as int]@);
                    }
                    if pref {
                        proof {
                            assert(prefix_at(l as int, rem) && is_strict_prefix_of(
                                spec_operators()[j as int],
                                spec_operators()[l as int],
                            ));
                        }
                        possible.set(j, false);
                        proof {
                            assert(exists|l2: int|
                                0 <= l2 < l + 1 && #[trigger] prefix_at(l2, rem)
                                    && is_strict_prefix_of(
                                    spec_operators()[j as int],
                                    spec_operators()[l2],
                                ));
                        }
                    } else {
                        proof {
                            assert(!is_strict_prefix_of(
                                spec_operators()[j as int],
                                spec_operators()[l as int],
                            ));
                        }
                    }
                } else {
                    proof {
                        assert(!(prefix_at(l as int, rem) && is_strict_prefix_of(
                            spec_operators()[j as int],
                            spec_operators()[l as int],
                        )));
                    }
                }
                l = l + 1;
            }
        } else {
            proof {
                assert(!survives(j as int, rem));
            }
        }
        j = j + 1;
    }

    // A single candidate can remain; its length is the munch length.
    let mut r: usize = 0;
    j = 0;
    while j < n
        invariant
            n == spec_operators().len(),
            ops@.len() == n,
            forall|k: int| 0 <= k < n ==> (#[trigger] ops@[k])@ == spec_operators()[k],
            possible@.len() == n,
            j <= n,
            forall|k: int| 0 <= k < n ==> possible@[k] == survives(k, rem),
            r as int == if exists|k: int| 0 <= k < j && #[trigger] survives(k, rem) {
                op_match_len(rem) as int
            } else {
                0
            },
        decreases n - j,
    {
        if possible[j] {
            r = ops[j].len();
            proof {
                assert(survives(j as int, rem));
                lemma_survivor_len(rem, j as int);
                assert((ops@[j as int])@ == spec_operators()[j as int]);
            }
        } else {
            proof {
                assert(!survives(j as int, rem));
                assert(forall|k: int|
                    0 <= k < j + 1 && #[trigger] survives(k, rem) ==> 0 <= k < j);
            }
        }
        j = j + 1;
    }
    proof {
        if !(exists|k: int| 0 <= k < n && #[trigger] survives(k, rem)) {
            assert(forall|k: int| !survives(k, rem));
            lemma_no_survivor(rem);
        }
    }
    r
}

} // verus!
