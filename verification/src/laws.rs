//! Laws of the store that relate several operations: how ids grow across
//! additions, and that removal deletes exactly the named record.

use crate::models::{has_id, max_id, next_id, store_wf, Link};
use vstd::prelude::*;
use vstd::seq_lib::*;

verus! {

/// Every id in the store is at most the store's largest id.
pub proof fn lemma_max_id_bound(s: Seq<Link>, i: int)
    requires
        0 <= i < s.len(),
    ensures
        s[i].id <= max_id(s),
    decreases s.len(),
{
    if i < s.len() - 1 {
        lemma_max_id_bound(s.drop_last(), i);
    }
}

/// Across any sequence of successful `add` calls the store grows by exactly
/// one link per call, and the assigned ids strictly increase and are never
/// reused: each `add` appends one link whose id — the store's next id —
/// exceeds every id present, and afterwards the next id is one larger.
pub proof fn lemma_add_ids(s: Seq<Link>, l: Link)
    requires
        l.id == next_id(s),
    ensures
        s.push(l).len() == s.len() + 1,
        forall|i: int| 0 <= i < s.len() ==> (#[trigger] s[i]).id < l.id,
        !has_id(s, l.id),
        next_id(s.push(l)) == next_id(s) + 1,
{
    assert forall|i: int| 0 <= i < s.len() implies (#[trigger] s[i]).id < l.id by {
        lemma_max_id_bound(s, i);
    }
    assert(s.push(l).drop_last() =~= s);
    assert(s.push(l).last() == l);
}

/// A filter that keeps every element changes nothing.
proof fn lemma_filter_all(s: Seq<Link>, pred: spec_fn(Link) -> bool)
    requires
        forall|i: int| 0 <= i < s.len() ==> pred(#[trigger] s[i]),
    ensures
        s.filter(pred) == s,
    decreases s.len(),
{
    if s.len() == 0 {
        reveal(Seq::filter);
        assert(s.filter(pred) =~= s);
    } else {
        lemma_filter_all(s.drop_last(), pred);
        s.drop_last().lemma_filter_push(s.last(), pred);
        assert(s.drop_last().push(s.last()) =~= s);
    }
}

/// Under the store invariant, removing a present id deletes exactly that
/// record: what is left is every other link, in unchanged order.
pub proof fn lemma_remove_exactly_one(s: Seq<Link>, id: usize, i: int)
    requires
        store_wf(s),
        0 <= i < s.len(),
        s[i].id == id,
    ensures
        s.filter(|l: Link| l.id != id) == s.remove(i),
{
    let pred = |l: Link| l.id != id;
    let front = s.take(i);
    let back = s.skip(i + 1);
    let mid = seq![s[i]];
    assert forall|k: int| 0 <= k < front.len() implies pred(#[trigger] front[k]) by {
        assert(front[k] == s[k]);
        assert(s[k].id != s[i].id);
    }
    assert forall|k: int| 0 <= k < back.len() implies pred(#[trigger] back[k]) by {
        assert(back[k] == s[k + i + 1]);
        assert(s[i].id != s[k + i + 1].id);
    }
    lemma_filter_all(front, pred);
    lemma_filter_all(back, pred);
    reveal_with_fuel(Seq::filter, 2);
    assert(mid.drop_last() =~= Seq::<Link>::empty());
    assert(mid.filter(pred) =~= Seq::<Link>::empty());
    Seq::filter_distributes_over_add(front, mid + back, pred);
    Seq::filter_distributes_over_add(mid, back, pred);
    assert(s =~= front + (mid + back));
    assert(s.filter(pred) =~= front + back);
    assert(s.remove(i) =~= front + back);
}

} // verus!
