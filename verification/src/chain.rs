//! Sequences put together from what each item of a list gives.

use vstd::prelude::*;

verus! {

/// What `per_item` gives for each of `items`, one after the other.
pub open spec fn chain<A, B>(items: Seq<A>, per_item: spec_fn(A) -> Seq<B>) -> Seq<B>
    decreases items.len(),
{
    if items.len() == 0 {
        Seq::empty()
    } else {
        chain(items.drop_last(), per_item) + per_item(items.last())
    }
}

/// A chain with one more item is the chain with what that item gives at
/// its end.
pub proof fn lemma_chain_push<A, B>(items: Seq<A>, item: A, per_item: spec_fn(A) -> Seq<B>)
    ensures
        chain(items.push(item), per_item) == chain(items, per_item) + per_item(item),
{
    assert(items.push(item).drop_last() =~= items);
}

/// The chain of two lists, one after the other, is the two chains, one
/// after the other.
pub proof fn lemma_chain_concat<A, B>(first: Seq<A>, second: Seq<A>, per_item: spec_fn(A) -> Seq<B>)
    ensures
        chain(first + second, per_item) == chain(first, per_item) + chain(second, per_item),
    decreases second.len(),
{
    if second.len() == 0 {
        assert(first + second =~= first);
        assert(chain(first, per_item) + chain(second, per_item) =~= chain(first, per_item));
    } else {
        lemma_chain_concat(first, second.drop_last(), per_item);
        assert((first + second).drop_last() =~= first + second.drop_last());
        assert(chain(first + second, per_item) =~= chain(first, per_item) + chain(
            second,
            per_item,
        ));
    }
}

/// A chain grows at its end by what the next item gives.
pub proof fn lemma_chain_step<A, B>(items: Seq<A>, k: int, per_item: spec_fn(A) -> Seq<B>)
    requires
        0 <= k < items.len(),
    ensures
        chain(items.take(k + 1), per_item) == chain(items.take(k), per_item) + per_item(items[k]),
{
    assert(items.take(k + 1).drop_last() =~= items.take(k));
}

/// The chain of the first `k` items is the beginning of the chain of all.
pub proof fn lemma_chain_prefix<A, B>(items: Seq<A>, k: int, per_item: spec_fn(A) -> Seq<B>)
    requires
        0 <= k <= items.len(),
    ensures
        chain(items.take(k), per_item).len() <= chain(items, per_item).len(),
        chain(items, per_item).take(chain(items.take(k), per_item).len() as int) == chain(
            items.take(k),
            per_item,
        ),
    decreases items.len() - k,
{
    if k == items.len() {
        assert(items.take(k) =~= items);
    } else {
        lemma_chain_step(items, k, per_item);
        lemma_chain_prefix(items, k + 1, per_item);
        let short = chain(items.take(k), per_item);
        let longer = chain(items.take(k + 1), per_item);
        assert(longer.take(short.len() as int) =~= short);
        assert(chain(items, per_item).take(short.len() as int) =~= chain(items, per_item).take(
            longer.len() as int,
        ).take(short.len() as int));
    }
}

/// What holds of everything that any item gives holds of everything in
/// the chain.
pub proof fn lemma_chain_all<A, B>(
    items: Seq<A>,
    per_item: spec_fn(A) -> Seq<B>,
    holds: spec_fn(B) -> bool,
)
    requires
        forall|i: int, k: int|
            0 <= i < items.len() && 0 <= k < per_item(items[i]).len() ==> holds(
                #[trigger] per_item(items[i])[k],
            ),
    ensures
        forall|k: int| 0 <= k < chain(items, per_item).len() ==> holds(
            #[trigger] chain(items, per_item)[k],
        ),
    decreases items.len(),
{
    if items.len() > 0 {
        let front = items.drop_last();
        assert forall|i: int, k: int|
            0 <= i < front.len() && 0 <= k < per_item(front[i]).len() implies holds(
            #[trigger] per_item(front[i])[k],
        ) by {
            assert(front[i] == items[i]);
        }
        lemma_chain_all(front, per_item, holds);
        let last = per_item(items.last());
        assert forall|k: int| 0 <= k < chain(items, per_item).len() implies holds(
            #[trigger] chain(items, per_item)[k],
        ) by {
            if k >= chain(front, per_item).len() {
                let at = k - chain(front, per_item).len();
                assert(chain(items, per_item)[k] == per_item(items[items.len() - 1])[at]);
            }
        }
    }
}

} // verus!
