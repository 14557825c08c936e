//! Facts about filtered sequences.

use vstd::prelude::*;

verus! {

/// What a filter keeps is what passes its test: everything kept passes, what
/// passes is kept, and the filter is shorter by at least one where
/// something fails.
pub proof fn lemma_filter_facts<A>(items: Seq<A>, keep: spec_fn(A) -> bool)
    ensures
        forall|item: A| items.filter(keep).contains(item) <==> items.contains(item) && keep(item),
        items.filter(keep).len() <= items.len(),
        (exists|k: int| 0 <= k < items.len() && !keep(items[k])) ==> items.filter(keep).len()
            < items.len(),
    decreases items.len(),
{
    if items.len() == 0 {
        reveal(Seq::filter);
    } else {
        let front = items.drop_last();
        let last = items.last();
        let kept = front.filter(keep);
        lemma_filter_facts(front, keep);
        assert(front.push(last) =~= items);
        front.lemma_filter_push(last, keep);
        assert(items.filter(keep) == if keep(last) {
            kept.push(last)
        } else {
            kept
        });
        assert forall|item: A| items.filter(keep).contains(item) implies items.contains(item)
            && keep(item) by {
            let k = choose|k: int| 0 <= k < items.filter(keep).len() && items.filter(keep)[k] == item;
            if k < kept.len() {
                assert(kept[k] == item);
                assert(kept.contains(item));
                assert(front.contains(item));
                let j = choose|j: int| 0 <= j < front.len() && front[j] == item;
                assert(items[j] == item);
            } else {
                assert(items[items.len() - 1] == item);
            }
        }
        assert forall|item: A| items.contains(item) && keep(item) implies items.filter(
            keep,
        ).contains(item) by {
            let j = choose|j: int| 0 <= j < items.len() && items[j] == item;
            if j < front.len() {
                assert(front[j] == item);
                assert(front.contains(item));
                assert(kept.contains(item));
                let k = choose|k: int| 0 <= k < kept.len() && kept[k] == item;
                assert(items.filter(keep)[k] == item);
            } else {
                assert(items.filter(keep)[kept.len() as int] == item);
            }
        }
        if exists|k: int| 0 <= k < items.len() && !keep(items[k]) {
            let k = choose|k: int| 0 <= k < items.len() && !keep(items[k]);
            if k < front.len() {
                assert(!keep(front[k]));
            }
        }
    }
}

/// A filter of a sequence in which nothing stands twice is such a sequence.
pub proof fn lemma_filter_keeps_distinct<A>(items: Seq<A>, keep: spec_fn(A) -> bool)
    requires
        items.no_duplicates(),
    ensures
        items.filter(keep).no_duplicates(),
    decreases items.len(),
{
    reveal(Seq::filter);
    if items.len() > 0 {
        let front = items.drop_last();
        lemma_filter_keeps_distinct(front, keep);
        if keep(items.last()) {
            assert forall|k: int| 0 <= k < front.filter(keep).len() implies front.filter(keep)[k]
                != items.last() by {
                front.lemma_filter_contains_rev(keep, front.filter(keep)[k]);
                let j = choose|j: int| 0 <= j < front.len() && front[j] == front.filter(keep)[k];
                assert(items[j] == front[j]);
            }
        }
    }
}

} // verus!
