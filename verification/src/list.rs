//! Counting the items of a list and turning a list around.

use vstd::prelude::*;

verus! {

/// How many items of `list` satisfy `p`.
pub open spec fn count_where<A>(list: Seq<A>, p: spec_fn(A) -> bool) -> nat
    decreases list.len(),
{
    if list.len() == 0 {
        0
    } else {
        count_where(list.drop_last(), p) + if p(list.last()) {
            1nat
        } else {
            0nat
        }
    }
}

/// Replacing one item changes the count by what the two items contribute.
pub proof fn lemma_count_update<A>(list: Seq<A>, i: int, x: A, p: spec_fn(A) -> bool)
    requires
        0 <= i < list.len(),
    ensures
        count_where(list.update(i, x), p) == count_where(list, p) - if p(list[i]) {
            1int
        } else {
            0int
        } + if p(x) {
            1int
        } else {
            0int
        },
    decreases list.len(),
{
    let after = list.update(i, x);
    if i == list.len() - 1 {
        assert(after.drop_last() =~= list.drop_last());
    } else {
        assert(after.drop_last() =~= list.drop_last().update(i, x));
        assert(after.last() == list.last());
        lemma_count_update(list.drop_last(), i, x, p);
    }
}

/// A count is at most the length, and equal to it exactly when every item
/// counts.
pub proof fn lemma_count_all<A>(list: Seq<A>, p: spec_fn(A) -> bool)
    ensures
        count_where(list, p) <= list.len(),
        count_where(list, p) == list.len() <==> forall|i: int|
            0 <= i < list.len() ==> p(#[trigger] list[i]),
    decreases list.len(),
{
    if list.len() > 0 {
        let rest = list.drop_last();
        lemma_count_all(rest, p);
        if count_where(list, p) == list.len() {
            assert forall|i: int| 0 <= i < list.len() implies p(#[trigger] list[i]) by {
                if i < rest.len() {
                    assert(p(rest[i]));
                }
            }
        }
        if forall|i: int| 0 <= i < list.len() ==> p(#[trigger] list[i]) {
            assert(p(list[list.len() - 1]));
            assert forall|i: int| 0 <= i < rest.len() implies p(#[trigger] rest[i]) by {
                assert(p(list[i]));
            }
        }
    }
}

/// Nothing counts in a list where no item does.
pub proof fn lemma_count_none<A>(list: Seq<A>, p: spec_fn(A) -> bool)
    requires
        forall|i: int| 0 <= i < list.len() ==> !p(#[trigger] list[i]),
    ensures
        count_where(list, p) == 0,
    decreases list.len(),
{
    if list.len() > 0 {
        let rest = list.drop_last();
        assert(!p(list[list.len() - 1]));
        assert forall|i: int| 0 <= i < rest.len() implies !p(#[trigger] rest[i]) by {
            assert(!p(list[i]));
        }
        lemma_count_none(rest, p);
    }
}

/// The list from its last item to its first.
pub fn reversed<A>(list: Vec<A>) -> (r: Vec<A>)
    ensures
        r@ == list@.reverse(),
{
    let ghost all = list@;
    let mut list = list;
    let mut out: Vec<A> = Vec::new();
    while list.len() > 0
        invariant
            list@ == all.take(list@.len() as int),
            list@.len() + out@.len() == all.len(),
            forall|j: int| 0 <= j < out@.len() ==> #[trigger] out@[j] == all[all.len() - 1 - j],
        decreases list@.len(),
    {
        let ghost left = list@.len() - 1;
        match list.pop() {
            Some(item) => out.push(item),
            None => {},
        }
        proof {
            assert(list@ =~= all.take(left));
        }
    }
    proof {
        assert(out@ =~= all.reverse());
    }
    out
}

} // verus!
