//! Sequences without repetition: what is left of a sequence when only the
//! first occurrence of every element is kept.

use itertools::Itertools;
use vstd::prelude::*;

verus! {

/// The elements of `s` in the order in which they first occur, each once.
pub open spec fn first_occurrences<A>(s: Seq<A>) -> Seq<A>
    decreases s.len(),
{
    if s.len() == 0 {
        Seq::empty()
    } else {
        let earlier = first_occurrences(s.drop_last());
        if earlier.contains(s.last()) {
            earlier
        } else {
            earlier.push(s.last())
        }
    }
}

/// `first_occurrences(s)` holds exactly the elements of `s`, none of them
/// twice, and is no longer than `s`.
pub proof fn lemma_first_occurrences<A>(s: Seq<A>)
    ensures
        first_occurrences(s).no_duplicates(),
        first_occurrences(s).len() <= s.len(),
        forall|x: A| #[trigger] first_occurrences(s).contains(x) <==> s.contains(x),
    decreases s.len(),
{
    if s.len() > 0 {
        let init = s.drop_last();
        let earlier = first_occurrences(init);
        let kept = first_occurrences(s);
        lemma_first_occurrences(init);
        assert forall|x: A| #[trigger] kept.contains(x) <==> s.contains(x) by {
            if s.contains(x) {
                let i = choose|i: int| 0 <= i < s.len() && s[i] == x;
                if i < s.len() - 1 {
                    assert(init[i] == x);
                    assert(earlier.contains(x));
                    let j = earlier.index_of(x);
                    assert(kept[j] == x);
                } else if !earlier.contains(x) {
                    assert(kept[earlier.len() as int] == x);
                }
            }
            if kept.contains(x) {
                let j = kept.index_of(x);
                if j < earlier.len() {
                    assert(earlier[j] == x);
                    assert(earlier.contains(x));
                    let i = init.index_of(x);
                    assert(s[i] == x);
                } else {
                    assert(s[s.len() - 1] == x);
                }
            }
        }
    }
}

/// Calls `Itertools::unique` on the strings of `items` and collects what it
/// yields. The adaptor keeps an element the first time it meets it and drops
/// every later equal one, so the result is `items` reduced to its first
/// occurrences, in the order of `items`.
#[verifier::external_body]
pub(crate) fn unique_strings(items: &Vec<String>) -> (kept: Vec<String>)
    ensures
        kept.deep_view() == first_occurrences(items.deep_view()),
{
    items.iter().unique().cloned().collect()
}

} // verus!
