//! Facts about sequences.
use vstd::prelude::*;

verus! {

/// Filtering goes item by item.
pub proof fn lemma_filter_of_push<A>(items: Seq<A>, item: A, keep: spec_fn(A) -> bool)
    ensures
        items.push(item).filter(keep) == if keep(item) {
            items.filter(keep).push(item)
        } else {
            items.filter(keep)
        },
{
    reveal(Seq::filter);
    assert(items.push(item).drop_last() =~= items);
}

/// Mapping goes item by item.
pub proof fn lemma_map_of_push<A, B>(items: Seq<A>, item: A, f: spec_fn(A) -> B)
    ensures
        items.push(item).map_values(f) == items.map_values(f).push(f(item)),
{
    assert(items.push(item).map_values(f) =~= items.map_values(f).push(f(item)));
}

/// A longer prefix is a prefix and one item more.
pub proof fn lemma_next_prefix<A>(items: Seq<A>, i: int)
    requires
        0 <= i < items.len(),
    ensures
        items.take(i + 1) == items.take(i).push(items[i]),
{
    assert(items.take(i + 1) =~= items.take(i).push(items[i]));
}

/// What a filter leaves, by the places where it stood: `places` goes up, and leads to items that are
/// kept.
pub proof fn lemma_filter_places<A>(items: Seq<A>, keep: spec_fn(A) -> bool) -> (places: Seq<int>)
    ensures
        places.len() == items.filter(keep).len(),
        forall|i: int|
            #![trigger places[i]]
            #![trigger items.filter(keep)[i]]
            0 <= i < places.len() ==> 0 <= places[i] < items.len() && items.filter(keep)[i]
                == items[places[i]] && keep(items[places[i]]),
        forall|i: int, j: int|
            0 <= i < j < places.len() ==> #[trigger] places[i] < #[trigger] places[j],
    decreases items.len(),
{
    if items.len() == 0 {
        reveal(Seq::filter);
        Seq::empty()
    } else {
        let rest = items.drop_last();
        let places = lemma_filter_places(rest, keep);
        assert(rest.push(items.last()) =~= items);
        lemma_filter_of_push(rest, items.last(), keep);
        if keep(items.last()) {
            places.push(items.len() - 1)
        } else {
            places
        }
    }
}

} // verus!
