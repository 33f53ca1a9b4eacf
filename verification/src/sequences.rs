//! Subsequences, and what filtering does to a sequence.

use vstd::prelude::*;

verus! {

/// Whether `picks` lists, in strictly increasing order, positions of `full`
/// at which the items of `part` stand, one position for each item.
pub open spec fn picks_out<A>(picks: Seq<int>, part: Seq<A>, full: Seq<A>) -> bool {
    &&& picks.len() == part.len()
    &&& forall|i: int|
        0 <= i < picks.len() ==> 0 <= #[trigger] picks[i] < full.len() && part[i] == full[picks[i]]
    &&& forall|i: int, j: int| 0 <= i < j < picks.len() ==> picks[i] < picks[j]
}

/// Whether `part` can be had from `full` by leaving items out, without
/// reordering or repeating any.
pub open spec fn is_subsequence<A>(part: Seq<A>, full: Seq<A>) -> bool {
    exists|picks: Seq<int>| picks_out(picks, part, full)
}

/// What a filter keeps is a subsequence of what it was given.
pub proof fn lemma_filter_is_subsequence<A>(full: Seq<A>, keep: spec_fn(A) -> bool)
    ensures
        is_subsequence(full.filter(keep), full),
    decreases full.len(),
{
    reveal(Seq::filter);
    if full.len() == 0 {
        assert(picks_out(Seq::<int>::empty(), full.filter(keep), full));
    } else {
        let shorter = full.drop_last();
        lemma_filter_is_subsequence(shorter, keep);
        let picks = choose|picks: Seq<int>| picks_out(picks, shorter.filter(keep), shorter);
        if keep(full.last()) {
            let longer = picks.push(full.len() - 1);
            assert forall|i: int| 0 <= i < longer.len() implies 0 <= #[trigger] longer[i]
                < full.len() && full.filter(keep)[i] == full[longer[i]] by {
                if i < picks.len() {
                    assert(longer[i] == picks[i]);
                    assert(shorter[picks[i]] == full[picks[i]]);
                }
            }
            assert forall|i: int, j: int| 0 <= i < j < longer.len() implies longer[i]
                < longer[j] by {
                assert(longer[i] == picks[i]);
                if j < picks.len() {
                    assert(longer[j] == picks[j]);
                }
            }
            assert(picks_out(longer, full.filter(keep), full));
        } else {
            assert forall|i: int| 0 <= i < picks.len() implies 0 <= #[trigger] picks[i]
                < full.len() && full.filter(keep)[i] == full[picks[i]] by {
                assert(shorter[picks[i]] == full[picks[i]]);
            }
            assert(picks_out(picks, full.filter(keep), full));
        }
    }
}

/// Filtering by a test gives the same as filtering by a weaker test first.
pub proof fn lemma_filter_in_two_steps<A>(
    full: Seq<A>,
    strong: spec_fn(A) -> bool,
    weak: spec_fn(A) -> bool,
)
    requires
        forall|i: int| 0 <= i < full.len() && strong(#[trigger] full[i]) ==> weak(full[i]),
    ensures
        full.filter(strong) == full.filter(weak).filter(strong),
    decreases full.len(),
{
    reveal(Seq::filter);
    if full.len() > 0 {
        let shorter = full.drop_last();
        assert forall|i: int| 0 <= i < shorter.len() && strong(
            #[trigger] shorter[i],
        ) implies weak(shorter[i]) by {
            assert(shorter[i] == full[i]);
        }
        lemma_filter_in_two_steps(shorter, strong, weak);
        if weak(full.last()) {
            shorter.filter(weak).lemma_filter_push(full.last(), strong);
        }
    }
}

/// A filter that every item passes keeps everything.
pub proof fn lemma_filter_keeps_all<A>(full: Seq<A>, keep: spec_fn(A) -> bool)
    requires
        forall|i: int| 0 <= i < full.len() ==> keep(full[i]),
    ensures
        full.filter(keep) == full,
    decreases full.len(),
{
    reveal(Seq::filter);
    if full.len() > 0 {
        let shorter = full.drop_last();
        assert forall|i: int| 0 <= i < shorter.len() implies keep(shorter[i]) by {
            assert(shorter[i] == full[i]);
        }
        lemma_filter_keeps_all(shorter, keep);
        assert(shorter.push(full.last()) =~= full);
    }
}

} // verus!
