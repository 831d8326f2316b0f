//! Stable sorting.
use vstd::prelude::*;

use crate::duplicate::views;

verus! {

/// A list with one more item: behind the items that it does not come before.
pub open spec fn inserted<T>(list: Seq<T>, item: T, before: spec_fn(T, T) -> bool) -> Seq<T>
    decreases list.len(),
{
    if list.len() == 0 || !before(item, list.last()) {
        list.push(item)
    } else {
        inserted(list.drop_last(), item, before).push(list.last())
    }
}

/// A list in order; items of which neither comes before the other keep their order.
pub open spec fn sorted<T>(list: Seq<T>, before: spec_fn(T, T) -> bool) -> Seq<T>
    decreases list.len(),
{
    if list.len() == 0 {
        list
    } else {
        inserted(sorted(list.drop_last(), before), list.last(), before)
    }
}

/// Whether a relation orders items, ties allowed: nothing comes before what comes before it, and
/// what is not before something else is not before what comes ahead of that.
pub open spec fn orders<T>(before: spec_fn(T, T) -> bool) -> bool {
    &&& forall|a: T, b: T| #[trigger] before(a, b) ==> !before(b, a)
    &&& forall|a: T, b: T, c: T|
        !#[trigger] before(a, b) && !#[trigger] before(b, c) ==> !before(a, c)
}

/// In order: no later item comes before an earlier one.
pub open spec fn in_order<T>(list: Seq<T>, before: spec_fn(T, T) -> bool) -> bool {
    forall|i: int, j: int|
        0 <= i < j < list.len() ==> !before(#[trigger] list[j], #[trigger] list[i])
}

proof fn lemma_inserted<T>(list: Seq<T>, item: T, before: spec_fn(T, T) -> bool)
    ensures
        inserted(list, item, before).to_multiset() == list.push(item).to_multiset(),
        inserted(list, item, before).len() == list.len() + 1,
        orders(before) && in_order(list, before) ==> in_order(inserted(list, item, before), before),
    decreases list.len(),
{
    broadcast use vstd::seq_lib::group_to_multiset_ensures;

    if list.len() == 0 || !before(item, list.last()) {
        if orders(before) && in_order(list, before) {
            let end = list.push(item);
            assert forall|i: int, j: int| 0 <= i < j < end.len() implies !before(
                #[trigger] end[j],
                #[trigger] end[i],
            ) by {
                if j == list.len() && i < list.len() - 1 {
                    assert(!before(list[list.len() - 1], list[i]));
                    assert(!before(item, list.last()));
                }
            }
        }
    } else {
        let rest = list.drop_last();
        lemma_inserted(rest, item, before);
        let head = inserted(rest, item, before);
        let end = head.push(list.last());
        assert(list.to_multiset() =~= rest.to_multiset().insert(list.last())) by {
            assert(list =~= rest.push(list.last()));
        }
        assert(end.to_multiset() =~= list.push(item).to_multiset());
        if orders(before) && in_order(list, before) {
            assert(in_order(rest, before)) by {
                assert forall|i: int, j: int| 0 <= i < j < rest.len() implies !before(
                    #[trigger] rest[j],
                    #[trigger] rest[i],
                ) by {
                    assert(rest[j] == list[j] && rest[i] == list[i]);
                }
            }
            assert forall|i: int, j: int| 0 <= i < j < end.len() implies !before(
                #[trigger] end[j],
                #[trigger] end[i],
            ) by {
                if j == head.len() {
                    let x = head[i];
                    assert(head.to_multiset().count(x) > 0) by {
                        assert(head.contains(x));
                        head.to_multiset_ensures();
                    }
                    rest.push(item).to_multiset_ensures();
                    assert(rest.push(item).contains(x));
                    let k = rest.push(item).index_of(x);
                    if k < rest.len() {
                        assert(x == list[k]);
                        assert(!before(list[list.len() - 1], list[k]));
                    } else {
                        assert(x == item);
                        assert(before(item, list.last()));
                    }
                } else {
                    assert(end[i] == head[i] && end[j] == head[j]);
                }
            }
        }
    }
}

/// A sorted list holds the same items as before, and holds them in order where the relation is one
/// that orders items.
pub proof fn law_sorted<T>(list: Seq<T>, before: spec_fn(T, T) -> bool)
    ensures
        sorted(list, before).to_multiset() == list.to_multiset(),
        sorted(list, before).len() == list.len(),
        orders(before) ==> in_order(sorted(list, before), before),
    decreases list.len(),
{
    broadcast use vstd::seq_lib::group_to_multiset_ensures;

    if list.len() > 0 {
        let rest = list.drop_last();
        law_sorted(rest, before);
        lemma_inserted(sorted(rest, before), list.last(), before);
        assert(list =~= rest.push(list.last()));
        assert(sorted(rest, before).push(list.last()).to_multiset() =~= list.to_multiset());
    }
}

/// Whether an order never goes against a coarser one, among the items of a list: what is ahead by the
/// coarser order comes before, and the coarser order ranks the items.
pub open spec fn refines<T>(
    list: Seq<T>,
    before: spec_fn(T, T) -> bool,
    ahead: spec_fn(T, T) -> bool,
) -> bool {
    &&& forall|a: T, b: T|
        list.contains(a) && list.contains(b) && #[trigger] ahead(a, b) ==> before(a, b)
    &&& forall|a: T, b: T|
        list.contains(a) && list.contains(b) && #[trigger] before(a, b) ==> !ahead(b, a)
    &&& forall|a: T, b: T, c: T|
        list.contains(a) && list.contains(b) && list.contains(c) && !#[trigger] ahead(a, b)
            && !#[trigger] ahead(b, c) ==> !ahead(a, c)
}

proof fn lemma_inserted_by_key<T>(
    all: Seq<T>,
    list: Seq<T>,
    item: T,
    before: spec_fn(T, T) -> bool,
    ahead: spec_fn(T, T) -> bool,
)
    requires
        refines(all, before, ahead),
        in_order(list, ahead),
        all.contains(item),
        forall|i: int| 0 <= i < list.len() ==> all.contains(#[trigger] list[i]),
    ensures
        in_order(inserted(list, item, before), ahead),
        forall|i: int|
            0 <= i < inserted(list, item, before).len() ==> {
                let one = #[trigger] inserted(list, item, before)[i];
                all.contains(one) && (one == item || list.contains(one))
            },
    decreases list.len(),
{
    let end = inserted(list, item, before);
    if list.len() == 0 || !before(item, list.last()) {
        assert forall|i: int, j: int| 0 <= i < j < end.len() implies !ahead(
            #[trigger] end[j],
            #[trigger] end[i],
        ) by {
            if j == list.len() {
                let last = list[list.len() - 1];
                assert(all.contains(list[i]) && all.contains(last));
                assert(!ahead(item, last));
                if i < list.len() - 1 {
                    assert(!ahead(last, list[i]));
                }
            }
        }
    } else {
        let rest = list.drop_last();
        let last = list.last();
        assert forall|i: int, j: int| 0 <= i < j < rest.len() implies !ahead(
            #[trigger] rest[j],
            #[trigger] rest[i],
        ) by {
            assert(rest[j] == list[j] && rest[i] == list[i]);
        }
        assert forall|i: int| 0 <= i < rest.len() implies all.contains(#[trigger] rest[i]) by {
            assert(rest[i] == list[i]);
        }
        lemma_inserted_by_key(all, rest, item, before, ahead);
        let head = inserted(rest, item, before);
        assert(all.contains(list[list.len() - 1]));
        assert forall|i: int, j: int| 0 <= i < j < end.len() implies !ahead(
            #[trigger] end[j],
            #[trigger] end[i],
        ) by {
            if j == head.len() {
                let one = head[i];
                if one != item {
                    let k = rest.index_of(one);
                    assert(one == list[k]);
                    assert(!ahead(list[list.len() - 1], list[k]));
                } else {
                    assert(before(item, last));
                }
            } else {
                assert(end[i] == head[i] && end[j] == head[j]);
            }
        }
        assert forall|i: int| 0 <= i < end.len() implies {
            let one = #[trigger] end[i];
            all.contains(one) && (one == item || list.contains(one))
        } by {
            if i < head.len() {
                let one = head[i];
                assert(end[i] == one);
                if one != item {
                    assert(list[rest.index_of(one)] == one);
                }
            } else {
                assert(end[i] == list[list.len() - 1]);
            }
        }
    }
}

proof fn lemma_sorted_by_key<T>(
    all: Seq<T>,
    list: Seq<T>,
    before: spec_fn(T, T) -> bool,
    ahead: spec_fn(T, T) -> bool,
)
    requires
        refines(all, before, ahead),
        forall|i: int| 0 <= i < list.len() ==> all.contains(#[trigger] list[i]),
    ensures
        in_order(sorted(list, before), ahead),
        forall|i: int|
            0 <= i < sorted(list, before).len() ==> all.contains(#[trigger] sorted(list, before)[i]),
    decreases list.len(),
{
    if list.len() > 0 {
        let rest = list.drop_last();
        assert forall|i: int| 0 <= i < rest.len() implies all.contains(#[trigger] rest[i]) by {
            assert(rest[i] == list[i]);
        }
        lemma_sorted_by_key(all, rest, before, ahead);
        assert(all.contains(list[list.len() - 1]));
        lemma_inserted_by_key(all, sorted(rest, before), list.last(), before, ahead);
        assert forall|i: int| 0 <= i < sorted(list, before).len() implies all.contains(
            #[trigger] sorted(list, before)[i],
        ) by {}
    }
}

/// A sorted list is in order by every coarser order too; so nothing in it is ahead of its first item.
pub proof fn law_sorted_by_key<T>(
    list: Seq<T>,
    before: spec_fn(T, T) -> bool,
    ahead: spec_fn(T, T) -> bool,
)
    requires
        refines(list, before, ahead),
    ensures
        in_order(sorted(list, before), ahead),
        forall|i: int|
            0 <= i < list.len() ==> !ahead(#[trigger] list[i], sorted(list, before)[0]),
{
    assert forall|i: int| 0 <= i < list.len() implies list.contains(#[trigger] list[i]) by {}
    lemma_sorted_by_key(list, list, before, ahead);
    law_sorted(list, before);
    let end = sorted(list, before);
    assert forall|i: int| 0 <= i < list.len() implies !ahead(#[trigger] list[i], end[0]) by {
        end.to_multiset_ensures();
        list.to_multiset_ensures();
        assert(list.to_multiset().count(list[i]) > 0);
        assert(end.contains(list[i]));
        let k = end.index_of(list[i]);
        if k == 0 {
            if ahead(list[i], list[i]) {
                assert(before(list[i], list[i]));
                assert(false);
            }
        } else {
            assert(!ahead(end[k], end[0]));
        }
    }
}

/// A list that is in order stays as it is; so items of which neither comes before the other keep the
/// order that they came in.
pub proof fn law_list_in_order_stays<T>(list: Seq<T>, before: spec_fn(T, T) -> bool)
    requires
        in_order(list, before),
    ensures
        sorted(list, before) == list,
    decreases list.len(),
{
    if list.len() > 0 {
        let rest = list.drop_last();
        assert forall|i: int, j: int| 0 <= i < j < rest.len() implies !before(
            #[trigger] rest[j],
            #[trigger] rest[i],
        ) by {
            assert(rest[j] == list[j] && rest[i] == list[i]);
        }
        law_list_in_order_stays(rest, before);
        if rest.len() > 0 {
            assert(!before(list[list.len() - 1], list[list.len() - 2]));
        }
        assert(rest.push(list.last()) =~= list);
    }
}

/// Items that can be put in order.
pub trait Precedes: View + Sized {
    spec fn before(a: Self::V, b: Self::V) -> bool;

    fn precedes(&self, other: &Self) -> (result: bool)
        ensures
            result == Self::before(self@, other@),
    ;
}

/// How the items of a type are put in order.
pub open spec fn order_of<T: Precedes>() -> spec_fn(T::V, T::V) -> bool {
    |a: T::V, b: T::V| T::before(a, b)
}

fn insert_item<T: Precedes>(list: &mut Vec<T>, item: T)
    ensures
        views(final(list)@) == inserted(views(old(list)@), item@, order_of::<T>()),
{
    let mut at: usize = list.len();
    let ghost all = views(list@);
    let ghost order = order_of::<T>();
    proof {
        assert(all.take(at as int) =~= all);
        assert(all.skip(at as int) =~= Seq::empty());
        assert(inserted(all, item@, order) + Seq::empty() =~= inserted(all, item@, order));
    }
    while at > 0 && item.precedes(&list[at - 1])
        invariant
            at <= list.len(),
            all == views(list@),
            order == order_of::<T>(),
            inserted(all, item@, order) == inserted(all.take(at as int), item@, order) + all.skip(
                at as int,
            ),
        decreases at,
    {
        proof {
            let head = all.take(at as int);
            assert(head.last() == list@[at - 1]@);
            assert(head.drop_last() =~= all.take(at - 1));
            assert(all.skip(at - 1) =~= seq![head.last()] + all.skip(at as int));
            assert(inserted(head, item@, order) == inserted(
                head.drop_last(),
                item@,
                order,
            ).push(head.last()));
            assert(inserted(all.take(at - 1), item@, order).push(head.last()) + all.skip(at as int)
                =~= inserted(all.take(at - 1), item@, order) + all.skip(at - 1));
        }
        at -= 1;
    }
    let ghost view = item@;
    let ghost before = list@;
    proof {
        let head = all.take(at as int);
        if at > 0 {
            assert(head.last() == list@[at - 1]@);
        }
        assert(inserted(head, view, order) == head.push(view));
    }
    list.insert(at, item);
    proof {
        assert(views(list@) =~= all.take(at as int).push(view) + all.skip(at as int));
    }
}

pub fn sort<T: Precedes>(list: Vec<T>) -> (result: Vec<T>)
    ensures
        views(result@) == sorted(views(list@), order_of::<T>()),
{
    let mut rest = list;
    let mut reversed: Vec<T> = Vec::new();
    let ghost all = views(list@);
    let mut result: Vec<T> = Vec::new();
    while rest.len() > 0
        invariant
            views(rest@) + views(reversed@).reverse() =~= all,
        decreases rest.len(),
    {
        let ghost r = views(rest@);
        let ghost v = views(reversed@);
        match rest.pop() {
            Some(item) => {
                let ghost view = item@;
                reversed.push(item);
                proof {
                    assert(views(rest@) =~= r.drop_last());
                    assert(view == r.last());
                    assert(views(reversed@) =~= v.push(view));
                    assert(v.push(view).reverse() =~= seq![view] + v.reverse());
                }
            },
            None => {},
        }
    }
    proof {
        assert(views(rest@) =~= Seq::empty());
        assert(views(reversed@).reverse() =~= all);
        assert(views(result@) =~= sorted(all.take(0), order_of::<T>()));
    }
    let ghost total = reversed@.len();
    while reversed.len() > 0
        invariant
            reversed.len() <= total,
            total == all.len(),
            views(reversed@).reverse() == all.skip(total - reversed.len()),
            views(result@) == sorted(all.take(total - reversed.len()), order_of::<T>()),
        decreases reversed.len(),
    {
        let ghost v = views(reversed@);
        let ghost done = total - reversed.len();
        match reversed.pop() {
            Some(item) => {
                proof {
                    assert(item@ == v.last());
                    assert(v.reverse()[0] == v.last());
                    assert(all.skip(done)[0] == all[done]);
                    assert(all.take(done + 1).drop_last() =~= all.take(done));
                    assert(all.take(done + 1).last() == item@);
                    assert(views(reversed@) =~= v.drop_last());
                    assert(v.drop_last().reverse() =~= v.reverse().skip(1));
                    assert(all.skip(done).skip(1) =~= all.skip(done + 1));
                }
                insert_item(&mut result, item);
            },
            None => {},
        }
    }
    proof {
        assert(all.take(total as int) =~= all);
    }
    result
}

} // verus!
