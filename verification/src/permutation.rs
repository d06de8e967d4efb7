//! Lists that hold the same items in another order, and prefixes of lists.

use vstd::prelude::*;

verus! {

/// A prefix that is one item longer holds that item and what the shorter
/// prefix holds, nothing else.
pub proof fn lemma_longer_prefix<A>(list: Seq<A>, k: int)
    requires
        0 <= k < list.len(),
    ensures
        list.take(k + 1) == list.take(k).push(list[k]),
        list.contains(list[k]),
        forall|x: A| #[trigger]
            list.take(k + 1).contains(x) <==> (list.take(k).contains(x) || x == list[k]),
{
    let shorter = list.take(k);
    let longer = list.take(k + 1);
    assert(longer =~= shorter.push(list[k]));
    assert forall|x: A| #[trigger] longer.contains(x) <==> (shorter.contains(x) || x == list[k]) by {
        if shorter.contains(x) {
            let i = choose|i: int| 0 <= i < shorter.len() && shorter[i] == x;
            assert(longer[i] == x);
        }
        if longer.contains(x) && x != list[k] {
            let i = choose|i: int| 0 <= i < longer.len() && longer[i] == x;
            assert(shorter[i] == x);
        }
        assert(longer[k] == list[k]);
    }
}

/// The last item of a list stands somewhere in every reordering of the
/// list, and what is left of both when it is taken out are reorderings of
/// each other.
pub proof fn lemma_last_in_reordered<A>(list: Seq<A>, reordered: Seq<A>) -> (k: int)
    requires
        list.len() > 0,
        list.to_multiset() == reordered.to_multiset(),
    ensures
        0 <= k < reordered.len(),
        reordered[k] == list.last(),
        reordered == reordered.remove(k).insert(k, list.last()),
        list.drop_last().to_multiset() == reordered.remove(k).to_multiset(),
        reordered.len() == list.len(),
{
    broadcast use vstd::multiset::group_multiset_axioms;

    let x = list.last();
    vstd::seq_lib::to_multiset_len(list);
    vstd::seq_lib::to_multiset_len(reordered);
    vstd::seq_lib::to_multiset_contains(list, x);
    vstd::seq_lib::to_multiset_contains(reordered, x);
    assert(list[list.len() - 1] == x);
    assert(list.contains(x));
    let k = choose|k: int| 0 <= k < reordered.len() && reordered[k] == x;
    vstd::seq_lib::to_multiset_remove(reordered, k);
    vstd::seq_lib::to_multiset_remove(list, list.len() - 1);
    assert(list.remove(list.len() - 1) =~= list.drop_last());
    assert(reordered =~= reordered.remove(k).insert(k, x));
    k
}

} // verus!
