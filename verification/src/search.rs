//! First-match search over sequences: the one mechanism behind "the
//! first aggregate with this todo id", "the first label with this
//! name", and their exec-side scans.

use vstd::prelude::*;

verus! {

/// Whether some element of `s` satisfies `p`.
pub open spec fn seq_has<A>(s: Seq<A>, p: spec_fn(A) -> bool) -> bool {
    exists|j: int| 0 <= j < s.len() && p(s[j])
}

/// The first position of `s` whose element satisfies `p` (meaningful
/// only when `seq_has(s, p)` holds).
pub open spec fn seq_first<A>(s: Seq<A>, p: spec_fn(A) -> bool) -> int
    decreases s.len(),
{
    if s.len() == 0 {
        0
    } else if p(s[0]) {
        0
    } else {
        1 + seq_first(s.drop_first(), p)
    }
}

/// When a match exists, the first match is in bounds, satisfies `p`,
/// and nothing before it does.
pub proof fn lemma_seq_first_props<A>(s: Seq<A>, p: spec_fn(A) -> bool)
    requires
        seq_has(s, p),
    ensures
        0 <= seq_first(s, p) < s.len(),
        p(s[seq_first(s, p)]),
        forall|k: int| 0 <= k < seq_first(s, p) ==> !p(#[trigger] s[k]),
    decreases s.len(),
{
    if s.len() == 0 {
    } else if p(s[0]) {
    } else {
        let j = choose|j: int| 0 <= j < s.len() && p(s[j]);
        assert(p(s.drop_first()[j - 1]));
        lemma_seq_first_props(s.drop_first(), p);
        assert(forall|k: int|
            0 <= k < seq_first(s, p) - 1 ==> !p(#[trigger] s.drop_first()[k]));
        assert(forall|k: int|
            1 <= k < seq_first(s, p) ==> s[k] == s.drop_first()[k - 1]);
    }
}

/// A position holding a match, preceded by no match, is the first match.
pub proof fn lemma_seq_first_is<A>(s: Seq<A>, p: spec_fn(A) -> bool, j: int)
    requires
        0 <= j < s.len(),
        p(s[j]),
        forall|k: int| 0 <= k < j ==> !p(#[trigger] s[k]),
    ensures
        seq_has(s, p),
        seq_first(s, p) == j,
    decreases j,
{
    if j == 0 {
    } else {
        assert(forall|k: int| 0 <= k < j - 1 ==> s.drop_first()[k] == s[k + 1]);
        lemma_seq_first_is(s.drop_first(), p, j - 1);
    }
}

} // verus!
