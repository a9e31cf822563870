//! Runs of equal positions. A pointer that rests on one cell names the same
//! position many times in a row; only the first of each run is acted on.

use vstd::prelude::*;
use itertools::Itertools;

verus! {

/// `s` with every run of equal neighbours cut down to its first entry.
pub open spec fn without_repeats(s: Seq<(usize, usize)>) -> Seq<(usize, usize)>
    decreases s.len(),
{
    if s.len() <= 1 {
        s
    } else if s[s.len() - 2] == s.last() {
        without_repeats(s.drop_last())
    } else {
        without_repeats(s.drop_last()).push(s.last())
    }
}

/// `Itertools::dedup` over the positions in order, gathered into a vector.
/// The adaptor yields an entry exactly when it differs from the entry
/// before it, so each run of equal neighbours comes out once. Not proved
/// here: the contract restates what `itertools` documents.
#[verifier::external_body]
pub(crate) fn dedup(positions: Vec<(usize, usize)>) -> (runs: Vec<(usize, usize)>)
    ensures
        runs@ == without_repeats(positions@),
{
    positions.into_iter().dedup().collect()
}

/// Cutting runs down removes no position altogether and adds none.
pub proof fn lemma_without_repeats_keeps_members(s: Seq<(usize, usize)>, p: (usize, usize))
    ensures
        without_repeats(s).contains(p) <==> s.contains(p),
    decreases s.len(),
{
    if s.len() > 1 {
        let front = s.drop_last();
        let cut = without_repeats(s);
        lemma_without_repeats_keeps_members(front, p);
        lemma_without_repeats_length(front);
        if s.contains(p) {
            let i = choose|i: int| 0 <= i < s.len() && s[i] == p;
            if i < s.len() - 1 {
                assert(front[i] == p);
                assert(front.contains(p));
                let j = choose|j: int|
                    0 <= j < without_repeats(front).len() && without_repeats(front)[j] == p;
                assert(cut[j] == p);
            } else if s[s.len() - 2] == s.last() {
                assert(front[s.len() - 2] == p);
                assert(front.contains(p));
            } else {
                assert(cut[cut.len() - 1] == p);
            }
        }
        if cut.contains(p) {
            let i = choose|i: int| 0 <= i < cut.len() && cut[i] == p;
            if i < without_repeats(front).len() {
                assert(without_repeats(front)[i] == p);
                assert(without_repeats(front).contains(p));
                let j = choose|j: int| 0 <= j < front.len() && front[j] == p;
                assert(s[j] == p);
            } else {
                assert(s[s.len() - 1] == p);
            }
        }
    }
}

/// Cutting runs down never makes a list longer, and leaves a list that is
/// not empty not empty.
pub proof fn lemma_without_repeats_length(s: Seq<(usize, usize)>)
    ensures
        without_repeats(s).len() <= s.len(),
        s.len() > 0 ==> without_repeats(s).len() > 0,
    decreases s.len(),
{
    if s.len() > 1 {
        lemma_without_repeats_length(s.drop_last());
    }
}

} // verus!
