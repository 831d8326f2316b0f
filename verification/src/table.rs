//! A map from text to values that keeps its keys in order.
use vstd::prelude::*;

use crate::duplicate::Duplicate;
use crate::order::{
    lemma_text_order_chains, lemma_text_order_equal, lemma_text_order_flips, text_order, Order,
};
use crate::text::{compare_text, same};

verus! {

/// Keys in strictly ascending order.
pub open spec fn ascending(keys: Seq<Seq<char>>) -> bool {
    forall|i: int, j: int|
        0 <= i < j < keys.len() ==> text_order(#[trigger] keys[i], #[trigger] keys[j])
            == Order::Less
}

/// The members of a set of texts in ascending order.
pub open spec fn ordered(members: Set<Seq<char>>) -> Seq<Seq<char>> {
    choose|keys: Seq<Seq<char>>| ascending(keys) && keys.to_set() == members
}

/// Two ascending lists with the same members are the same list.
pub proof fn lemma_ascending_unique(a: Seq<Seq<char>>, b: Seq<Seq<char>>)
    requires
        ascending(a),
        ascending(b),
        a.to_set() == b.to_set(),
    ensures
        a == b,
    decreases a.len(),
{
    if a.len() == 0 {
        if b.len() > 0 {
            assert(b.to_set().contains(b[0]));
            assert(a.to_set().contains(b[0]));
        }
        assert(a =~= b);
    } else {
        assert(a.to_set().contains(a[0]));
        assert(b.to_set().contains(a[0]));
        let i = choose|i: int| 0 <= i < b.len() && b[i] == a[0];
        assert(b.to_set().contains(b[0]));
        assert(a.to_set().contains(b[0]));
        let j = choose|j: int| 0 <= j < a.len() && a[j] == b[0];
        if i > 0 {
            assert(text_order(b[0], b[i]) == Order::Less);
            lemma_text_order_flips(b[0], a[0]);
            if j > 0 {
                assert(text_order(a[0], a[j]) == Order::Less);
            } else {
                lemma_text_order_equal(b[0], b[i]);
            }
            assert(false);
        }
        let x = a.skip(1);
        let y = b.skip(1);
        assert(ascending(x)) by {
            assert forall|p: int, q: int| 0 <= p < q < x.len() implies text_order(
                #[trigger] x[p],
                #[trigger] x[q],
            ) == Order::Less by {
                assert(x[p] == a[p + 1] && x[q] == a[q + 1]);
            }
        }
        assert(ascending(y)) by {
            assert forall|p: int, q: int| 0 <= p < q < y.len() implies text_order(
                #[trigger] y[p],
                #[trigger] y[q],
            ) == Order::Less by {
                assert(y[p] == b[p + 1] && y[q] == b[q + 1]);
            }
        }
        assert(x.to_set() =~= y.to_set()) by {
            assert forall|k: Seq<char>| x.to_set().contains(k) implies y.to_set().contains(k) by {
                let p = choose|p: int| 0 <= p < x.len() && x[p] == k;
                assert(a[p + 1] == k);
                assert(a.to_set().contains(k));
                assert(b.to_set().contains(k));
                let q = choose|q: int| 0 <= q < b.len() && b[q] == k;
                if q == 0 {
                    assert(text_order(a[0], a[p + 1]) == Order::Less);
                    lemma_text_order_equal(a[0], k);
                }
                assert(y[q - 1] == k);
            }
            assert forall|k: Seq<char>| y.to_set().contains(k) implies x.to_set().contains(k) by {
                let p = choose|p: int| 0 <= p < y.len() && y[p] == k;
                assert(b[p + 1] == k);
                assert(b.to_set().contains(k));
                assert(a.to_set().contains(k));
                let q = choose|q: int| 0 <= q < a.len() && a[q] == k;
                if q == 0 {
                    assert(text_order(b[0], b[p + 1]) == Order::Less);
                    lemma_text_order_equal(b[0], k);
                }
                assert(x[q - 1] == k);
            }
        }
        lemma_ascending_unique(x, y);
        assert(a =~= seq![a[0]] + x);
        assert(b =~= seq![b[0]] + y);
    }
}

/// Whatever is ascending and holds exactly the members is their ordered list.
pub proof fn lemma_ordered_is(members: Set<Seq<char>>, keys: Seq<Seq<char>>)
    requires
        ascending(keys),
        keys.to_set() == members,
    ensures
        ordered(members) == keys,
{
    lemma_ascending_unique(ordered(members), keys);
}

/// A map from text to values, held as a list of entries with ascending keys.
#[derive(Debug)]
pub struct Table<V> {
    entries: Vec<(String, V)>,
}

/// The keys of a list of entries.
pub open spec fn entry_keys<V>(entries: Seq<(String, V)>) -> Seq<Seq<char>> {
    entries.map_values(|entry: (String, V)| entry.0@)
}

impl<V> Table<V> {
    /// The keys ascend, so none occurs twice.
    #[verifier::type_invariant]
    spec fn wf(self) -> bool {
        ascending(entry_keys(self.entries@))
    }
}

impl<V: View> View for Table<V> {
    type V = Map<Seq<char>, V::V>;

    closed spec fn view(&self) -> Map<Seq<char>, V::V> {
        Map::new(
            |key: Seq<char>| self.keys().contains(key),
            |key: Seq<char>| self.entries@[self.keys().index_of(key)].1@,
        )
    }
}

impl<V: View> Table<V> {
    /// The keys in the order in which the table is walked.
    pub closed spec fn keys(&self) -> Seq<Seq<char>> {
        entry_keys(self.entries@)
    }

    proof fn lemma_entry(&self, i: int)
        requires
            self.wf(),
            0 <= i < self.entries.len(),
        ensures
            self.keys().len() == self.entries.len(),
            self.keys()[i] == self.entries@[i].0@,
            self@.dom().contains(self.entries@[i].0@),
            self@[self.entries@[i].0@] == self.entries@[i].1@,
    {
        let keys = self.keys();
        let key = keys[i];
        assert(keys.contains(key));
        let j = keys.index_of(key);
        assert(0 <= j < keys.len() && keys[j] == key);
        lemma_text_order_equal(key, key);
        if i < j {
            assert(text_order(keys[i], keys[j]) == Order::Less);
        } else if j < i {
            assert(text_order(keys[j], keys[i]) == Order::Less);
        }
    }

    /// The keys are the domain of the map, in ascending order.
    proof fn lemma_keys(&self)
        requires
            self.wf(),
        ensures
            ascending(self.keys()),
            self.keys().to_set() == self@.dom(),
            ordered(self@.dom()) == self.keys(),
            forall|i: int| 0 <= i < self.keys().len() ==> self@.dom().contains(#[trigger] self.keys()[i]),
            forall|i: int, j: int|
                0 <= i < self.keys().len() && 0 <= j < self.keys().len() && i != j
                    ==> #[trigger] self.keys()[i] != #[trigger] self.keys()[j],
    {
        assert(self.keys().to_set() =~= self@.dom());
        lemma_ordered_is(self@.dom(), self.keys());
        assert forall|i: int, j: int|
            0 <= i < self.keys().len() && 0 <= j < self.keys().len() && i != j implies
            #[trigger] self.keys()[i] != #[trigger] self.keys()[j] by {
            lemma_text_order_equal(self.keys()[i], self.keys()[j]);
            lemma_text_order_equal(self.keys()[j], self.keys()[i]);
            if i < j {
                assert(text_order(self.keys()[i], self.keys()[j]) == Order::Less);
            } else {
                assert(text_order(self.keys()[j], self.keys()[i]) == Order::Less);
            }
        }
    }

    pub fn new() -> (result: Self)
        ensures
            result@ == Map::<Seq<char>, V::V>::empty(),
            result.keys() == Seq::<Seq<char>>::empty(),
    {
        let result = Table { entries: Vec::new() };
        proof {
            assert(result.keys() =~= Seq::<Seq<char>>::empty());
            assert(result@ =~= Map::<Seq<char>, V::V>::empty());
        }
        result
    }

    /// How many entries there are. The keys are walked in ascending order.
    pub fn len(&self) -> (result: usize)
        ensures
            result == self.keys().len(),
            ascending(self.keys()),
            self.keys().to_set() == self@.dom(),
            self@.dom().finite(),
            self@.dom().len() == self.keys().len(),
            ordered(self@.dom()) == self.keys(),
            forall|i: int|
                0 <= i < self.keys().len() ==> self@.dom().contains(#[trigger] self.keys()[i]),
            forall|i: int, j: int|
                0 <= i < self.keys().len() && 0 <= j < self.keys().len() && i != j
                    ==> #[trigger] self.keys()[i] != #[trigger] self.keys()[j],
    {
        proof {
            use_type_invariant(&*self);
            self.lemma_keys();
            vstd::seq_lib::seq_to_set_is_finite(self.keys());
            self.keys().unique_seq_to_set();
        }
        self.entries.len()
    }

    /// The place of a key, or the place where it would stand.
    fn place(&self, key: &str) -> (result: (bool, usize))
        ensures
            result.1 <= self.entries.len(),
            result.0 ==> result.1 < self.entries.len() && self.entries@[result.1 as int].0@ == key@,
            result.0 == self@.dom().contains(key@),
            forall|k: int| 0 <= k < result.1 ==> text_order(#[trigger] self.entries@[k].0@, key@)
                == Order::Less,
            !result.0 ==> forall|k: int|
                result.1 <= k < self.entries.len() ==> text_order(key@, #[trigger] self.entries@[k].0@)
                    == Order::Less,
    {
        let mut i: usize = 0;
        let ghost keys = self.keys();
        proof {
            use_type_invariant(&*self);
        }
        while i < self.entries.len()
            invariant
                self.wf(),
                keys == self.keys(),
                i <= self.entries.len(),
                forall|k: int| 0 <= k < i ==> text_order(#[trigger] self.entries@[k].0@, key@)
                    == Order::Less,
            decreases self.entries.len() - i,
        {
            match compare_text(self.entries[i].0.as_str(), key) {
                Order::Less => {},
                Order::Equal => {
                    proof {
                        lemma_text_order_equal(self.entries@[i as int].0@, key@);
                        self.lemma_entry(i as int);
                    }
                    return (true, i);
                },
                Order::Greater => {
                    proof {
                        lemma_text_order_flips(self.entries@[i as int].0@, key@);
                        assert forall|k: int| i <= k < self.entries.len() implies text_order(
                            key@,
                            #[trigger] self.entries@[k].0@,
                        ) == Order::Less by {
                            assert(keys[k] == self.entries@[k].0@);
                            assert(keys[i as int] == self.entries@[i as int].0@);
                            if k > i {
                                assert(text_order(keys[i as int], keys[k]) == Order::Less);
                                lemma_text_order_chains(key@, keys[i as int], keys[k]);
                            }
                        }
                        assert forall|k: int| 0 <= k < keys.len() implies keys[k] != key@ by {
                            assert(keys[k] == self.entries@[k].0@);
                            lemma_text_order_equal(keys[k], key@);
                            lemma_text_order_equal(key@, keys[k]);
                        }
                    }
                    return (false, i);
                },
            }
            i += 1;
        }
        proof {
            assert forall|k: int| 0 <= k < keys.len() implies keys[k] != key@ by {
                assert(keys[k] == self.entries@[k].0@);
                lemma_text_order_equal(keys[k], key@);
            }
        }
        (false, i)
    }

    pub fn contains(&self, key: &str) -> (result: bool)
        ensures
            result == self@.dom().contains(key@),
    {
        self.place(key).0
    }

    pub fn get(&self, key: &str) -> (result: Option<&V>)
        ensures
            match result {
                Some(value) => self@.dom().contains(key@) && self@[key@] == value@,
                None => !self@.dom().contains(key@),
            },
    {
        let (found, i) = self.place(key);
        if found {
            proof {
                use_type_invariant(&*self);
                self.lemma_entry(i as int);
            }
            Some(&self.entries[i].1)
        } else {
            None
        }
    }

    /// The key at a place of the walk.
    pub fn key_at(&self, i: usize) -> (result: &String)
        requires
            i < self.keys().len(),
        ensures
            result@ == self.keys()[i as int],
            self@.dom().contains(result@),
    {
        proof {
            use_type_invariant(&*self);
            self.lemma_entry(i as int);
        }
        &self.entries[i].0
    }

    /// The value at a place of the walk.
    pub fn value_at(&self, i: usize) -> (result: &V)
        requires
            i < self.keys().len(),
        ensures
            result@ == self@[self.keys()[i as int]],
            self@.dom().contains(self.keys()[i as int]),
    {
        proof {
            use_type_invariant(&*self);
            self.lemma_entry(i as int);
        }
        &self.entries[i].1
    }

    /// Sets the value of a key and returns the one it replaces.
    pub fn insert(&mut self, key: String, value: V) -> (result: Option<V>)
        ensures
            final(self)@ == old(self)@.insert(key@, value@),
            match result {
                Some(previous) => old(self)@.dom().contains(key@) && old(self)@[key@] == previous@,
                None => !old(self)@.dom().contains(key@),
            },
    {
        let ghost name = key@;
        let ghost before = *self;
        let removed = self.remove(key.as_str());
        let ghost middle = *self;
        let (found, i) = self.place(key.as_str());
        let ghost entries = self.entries@;
        proof {
            use_type_invariant(&*self);
        }
        let mut list: Vec<(String, V)> = Vec::new();
        std::mem::swap(&mut list, &mut self.entries);
        list.insert(i, (key, value));
        proof {
            let after = list@;
            let keys = entry_keys(after);
            assert forall|p: int, q: int| 0 <= p < q < keys.len() implies text_order(
                #[trigger] keys[p],
                #[trigger] keys[q],
            ) == Order::Less by {
                let old_keys = entry_keys(entries);
                if q < i {
                    assert(keys[p] == old_keys[p] && keys[q] == old_keys[q]);
                } else if q == i {
                    assert(keys[p] == entries[p].0@);
                } else if p < i {
                    assert(keys[p] == old_keys[p] && keys[q] == old_keys[q - 1]);
                } else if p == i {
                    assert(keys[q] == entries[q - 1].0@);
                } else {
                    assert(keys[p] == old_keys[p - 1] && keys[q] == old_keys[q - 1]);
                }
            }
        }
        self.entries = list;
        proof {
            let after = self.entries@;
            let keys = entry_keys(after);
            assert(self@ =~= middle@.insert(name, value@)) by {
                assert forall|k: Seq<char>| self@.dom().contains(k) == middle@.insert(
                    name,
                    value@,
                ).dom().contains(k) by {
                    if keys.contains(k) {
                        let p = choose|p: int| 0 <= p < keys.len() && keys[p] == k;
                        if p < i {
                            middle.lemma_entry(p);
                            assert(after[p] == entries[p]);
                        } else if p > i {
                            middle.lemma_entry(p - 1);
                            assert(after[p] == entries[p - 1]);
                        }
                    }
                    if k == name {
                        self.lemma_entry(i as int);
                    } else if middle@.dom().contains(k) {
                        let p = choose|p: int| 0 <= p < middle.keys().len() && middle.keys()[p] == k;
                        if p < i {
                            assert(after[p] == entries[p]);
                            self.lemma_entry(p);
                        } else {
                            assert(after[p + 1] == entries[p]);
                            self.lemma_entry(p + 1);
                        }
                    }
                }
                assert forall|k: Seq<char>| self@.dom().contains(k) implies self@[k]
                    == middle@.insert(name, value@)[k] by {
                    let p = choose|p: int| 0 <= p < keys.len() && keys[p] == k;
                    self.lemma_entry(p);
                    if p < i {
                        middle.lemma_entry(p);
                        assert(after[p] == entries[p]);
                    } else if p > i {
                        middle.lemma_entry(p - 1);
                        assert(after[p] == entries[p - 1]);
                    }
                    if k == name {
                        self.lemma_entry(i as int);
                    }
                }
            }
            assert(before@.remove(name).insert(name, value@) =~= before@.insert(name, value@));
        }
        removed
    }

    /// Takes a key and its value out.
    pub fn remove(&mut self, key: &str) -> (result: Option<V>)
        ensures
            final(self)@ == old(self)@.remove(key@),
            match result {
                Some(previous) => old(self)@.dom().contains(key@) && old(self)@[key@] == previous@,
                None => !old(self)@.dom().contains(key@),
            },
    {
        let (found, i) = self.place(key);
        if !found {
            proof {
                assert(self@.remove(key@) =~= self@);
            }
            return None;
        }
        let ghost before = *self;
        let ghost entries = self.entries@;
        proof {
            use_type_invariant(&*self);
            before.lemma_entry(i as int);
        }
        let mut list: Vec<(String, V)> = Vec::new();
        std::mem::swap(&mut list, &mut self.entries);
        let removed = list.remove(i);
        proof {
            let after = list@;
            let keys = entry_keys(after);
            let old_keys = entry_keys(entries);
            assert forall|p: int, q: int| 0 <= p < q < keys.len() implies text_order(
                #[trigger] keys[p],
                #[trigger] keys[q],
            ) == Order::Less by {
                let x = if p < i { p } else { p + 1 };
                let y = if q < i { q } else { q + 1 };
                assert(keys[p] == old_keys[x] && keys[q] == old_keys[y]);
            }
        }
        self.entries = list;
        proof {
            let after = self.entries@;
            let keys = entry_keys(after);
            let old_keys = entry_keys(entries);
            assert(self@ =~= before@.remove(key@)) by {
                before.lemma_keys();
                assert forall|k: Seq<char>| self@.dom().contains(k) == before@.remove(
                    key@,
                ).dom().contains(k) by {
                    if keys.contains(k) {
                        let p = choose|p: int| 0 <= p < keys.len() && keys[p] == k;
                        let x = if p < i { p } else { p + 1 };
                        assert(after[p] == entries[x]);
                        before.lemma_entry(x);
                        assert(before.keys()[x] != before.keys()[i as int]);
                    }
                    if before@.dom().contains(k) && k != key@ {
                        let p = choose|p: int| 0 <= p < old_keys.len() && old_keys[p] == k;
                        let x = if p < i { p } else { p - 1 };
                        assert(after[x] == entries[p]);
                        self.lemma_entry(x);
                    }
                }
                assert forall|k: Seq<char>| self@.dom().contains(k) implies self@[k]
                    == before@.remove(key@)[k] by {
                    let p = choose|p: int| 0 <= p < keys.len() && keys[p] == k;
                    self.lemma_entry(p);
                    let x = if p < i { p } else { p + 1 };
                    assert(after[p] == entries[x]);
                    before.lemma_entry(x);
                }
            }
        }
        Some(removed.1)
    }
}


/// Whether two tables hold the same texts under the same keys.
pub fn same_texts(a: &Table<String>, b: &Table<String>) -> (result: bool)
    ensures
        result == (a@ == b@),
{
    let count: usize = a.len();
    if count != b.len() {
        return false;
    }
    let mut i: usize = 0;
    while i < count
        invariant
            i <= count,
            count == a.keys().len(),
            count == b.keys().len(),
            a.keys() == ordered(a@.dom()),
            b.keys() == ordered(b@.dom()),
            forall|k: int|
                0 <= k < i ==> #[trigger] a.keys()[k] == b.keys()[k] && a@[a.keys()[k]]
                    == b@[b.keys()[k]],
        decreases count - i,
    {
        if !same(a.key_at(i).as_str(), b.key_at(i).as_str()) || !same(
            a.value_at(i).as_str(),
            b.value_at(i).as_str(),
        ) {
            return false;
        }
        i += 1;
    }
    proof {
        lemma_ordered(a@.dom());
        lemma_ordered(b@.dom());
        assert(a.keys() =~= b.keys());
        assert(a@.dom() =~= b@.dom());
        assert forall|key: Seq<char>| a@.dom().contains(key) implies a@[key] == b@[key] by {
            assert(a.keys().contains(key));
            assert(a@[a.keys()[a.keys().index_of(key)]] == b@[key]);
        }
        assert(a@ =~= b@);
    }
    true
}

impl<V: Duplicate> Duplicate for Table<V> {
    fn duplicate(&self) -> (result: Table<V>) {
        let mut result: Table<V> = Table::new();
        let mut i: usize = 0;
        let count: usize = self.len();
        let ghost keys = self.keys();
        proof {
            assert(result@ =~= self@.restrict(keys.take(0).to_set()));
        }
        while i < count
            invariant
                i <= count,
                count == keys.len(),
                keys == self.keys(),
                keys.to_set() == self@.dom(),
                result@ == self@.restrict(keys.take(i as int).to_set()),
            decreases count - i,
        {
            let key = self.key_at(i).clone();
            let value = self.value_at(i).duplicate();
            result.insert(key, value);
            proof {
                lemma_take_grows(keys, i as int);
                assert(result@ =~= self@.restrict(keys.take(i + 1).to_set()));
            }
            i += 1;
        }
        proof {
            assert(keys.take(i as int) =~= keys);
            assert(result@ =~= self@);
        }
        result
    }
}

/// The first of some keys that meets a condition.
pub open spec fn first_where(keys: Seq<Seq<char>>, test: spec_fn(Seq<char>) -> bool) -> Option<
    Seq<char>,
>
    decreases keys.len(),
{
    if keys.len() == 0 {
        None
    } else if test(keys[0]) {
        Some(keys[0])
    } else {
        first_where(keys.skip(1), test)
    }
}

/// How many of some keys meet a condition.
pub open spec fn count_where(keys: Seq<Seq<char>>, test: spec_fn(Seq<char>) -> bool) -> nat
    decreases keys.len(),
{
    if keys.len() == 0 {
        0
    } else {
        count_where(keys.drop_last(), test) + if test(keys.last()) {
            1nat
        } else {
            0nat
        }
    }
}

pub proof fn lemma_first_where(
    keys: Seq<Seq<char>>,
    test: spec_fn(Seq<char>) -> bool,
    i: int,
)
    requires
        0 <= i < keys.len(),
        test(keys[i]),
        forall|k: int| 0 <= k < i ==> !test(#[trigger] keys[k]),
    ensures
        first_where(keys, test) == Some(keys[i]),
    decreases keys.len(),
{
    if i > 0 {
        assert(!test(keys[0]));
        let rest = keys.skip(1);
        assert forall|k: int| 0 <= k < i - 1 implies !test(#[trigger] rest[k]) by {
            assert(rest[k] == keys[k + 1]);
        }
        lemma_first_where(rest, test, i - 1);
    }
}

pub proof fn lemma_first_where_none(keys: Seq<Seq<char>>, test: spec_fn(Seq<char>) -> bool)
    requires
        forall|k: int| 0 <= k < keys.len() ==> !test(#[trigger] keys[k]),
    ensures
        first_where(keys, test) is None,
    decreases keys.len(),
{
    if keys.len() > 0 {
        let rest = keys.skip(1);
        assert forall|k: int| 0 <= k < rest.len() implies !test(#[trigger] rest[k]) by {
            assert(rest[k] == keys[k + 1]);
        }
        lemma_first_where_none(rest, test);
    }
}

/// The first key that meets a condition is one of the keys and meets it.
pub proof fn lemma_first_where_found(keys: Seq<Seq<char>>, test: spec_fn(Seq<char>) -> bool)
    ensures
        first_where(keys, test) matches Some(key) ==> keys.contains(key) && test(key),
        first_where(keys, test) is None ==> forall|key: Seq<char>|
            keys.contains(key) ==> !#[trigger] test(key),
    decreases keys.len(),
{
    if keys.len() > 0 {
        let rest = keys.skip(1);
        lemma_first_where_found(rest, test);
        if test(keys[0]) {
            assert(keys.contains(keys[0]));
        } else if first_where(rest, test) is Some {
            let key = first_where(rest, test)->0;
            let k = rest.index_of(key);
            assert(keys[k + 1] == key);
        } else {
            assert forall|key: Seq<char>| keys.contains(key) implies !#[trigger] test(key) by {
                let k = keys.index_of(key);
                if k > 0 {
                    assert(rest[k - 1] == key);
                }
            }
        }
    }
}

pub proof fn lemma_take_grows(keys: Seq<Seq<char>>, i: int)
    requires
        0 <= i < keys.len(),
    ensures
        keys.take(i + 1).to_set() == keys.take(i).to_set().insert(keys[i]),
{
    let a = keys.take(i + 1);
    let b = keys.take(i);
    assert(a =~= b.push(keys[i]));
    assert forall|k: Seq<char>| a.to_set().contains(k) == b.to_set().insert(keys[i]).contains(
        k,
    ) by {
        if b.contains(k) {
            let p = b.index_of(k);
            assert(a[p] == k);
        }
        if k == keys[i] {
            assert(a[i] == k);
        }
        if a.contains(k) && k != keys[i] {
            let p = a.index_of(k);
            assert(b[p] == k);
        }
    }
    assert(a.to_set() =~= b.to_set().insert(keys[i]));
}


impl<V: Duplicate> Table<V> {
    /// Takes over the entries of another table; where both have a key, the other's value counts.
    pub fn extend_from(&mut self, other: &Table<V>)
        ensures
            final(self)@ == old(self)@.union_prefer_right(other@),
    {
        let ghost start = self@;
        let mut i: usize = 0;
        let count: usize = other.len();
        let ghost keys = other.keys();
        proof {
            assert(self@ =~= start.union_prefer_right(other@.restrict(keys.take(0).to_set())));
        }
        while i < count
            invariant
                i <= count,
                count == keys.len(),
                keys == other.keys(),
                keys.to_set() == other@.dom(),
                self@ == start.union_prefer_right(other@.restrict(keys.take(i as int).to_set())),
            decreases count - i,
        {
            let key = other.key_at(i).clone();
            let value = other.value_at(i).duplicate();
            self.insert(key, value);
            proof {
                lemma_take_grows(keys, i as int);
                assert(self@ =~= start.union_prefer_right(
                    other@.restrict(keys.take(i + 1).to_set()),
                ));
            }
            i += 1;
        }
        proof {
            assert(keys.take(i as int) =~= keys);
            assert(other@.restrict(keys.to_set()) =~= other@);
        }
    }
}


/// Those of some keys that meet a condition, in their order.
pub open spec fn kept_where(keys: Seq<Seq<char>>, test: spec_fn(Seq<char>) -> bool) -> Seq<
    Seq<char>,
>
    decreases keys.len(),
{
    if keys.len() == 0 {
        Seq::empty()
    } else {
        let rest = kept_where(keys.drop_last(), test);
        if test(keys.last()) {
            rest.push(keys.last())
        } else {
            rest
        }
    }
}

/// What is kept is among the keys and meets the condition, and whatever does so is kept.
pub proof fn lemma_kept_where(keys: Seq<Seq<char>>, test: spec_fn(Seq<char>) -> bool)
    ensures
        forall|key: Seq<char>| #[trigger]
            kept_where(keys, test).contains(key) <==> keys.contains(key) && test(key),
        kept_where(keys, test).len() == count_where(keys, test),
    decreases keys.len(),
{
    if keys.len() > 0 {
        let rest = keys.drop_last();
        lemma_kept_where(rest, test);
        let all = kept_where(keys, test);
        let some = kept_where(rest, test);
        assert forall|key: Seq<char>| #[trigger] all.contains(key) <==> keys.contains(key) && test(
            key,
        ) by {
            if all.contains(key) {
                let k = all.index_of(key);
                if k < some.len() {
                    assert(some[k] == key);
                    assert(some.contains(key));
                    assert(rest.contains(key));
                    assert(keys[rest.index_of(key)] == key);
                } else {
                    assert(keys[keys.len() - 1] == key);
                }
            }
            if keys.contains(key) && test(key) {
                let k = keys.index_of(key);
                if k < rest.len() {
                    assert(rest[k] == key);
                    assert(some.contains(key));
                    assert(all[some.index_of(key)] == key);
                } else {
                    assert(all[some.len() as int] == key);
                }
            }
        }
    }
}


proof fn lemma_place_text(keys: Seq<Seq<char>>, text: Seq<char>) -> (result: Seq<Seq<char>>)
    requires
        ascending(keys),
        !keys.contains(text),
    ensures
        ascending(result),
        result.to_set() == keys.to_set().insert(text),
        keys.len() > 0 ==> result.len() > 0 && (result[0] == keys[0] || result[0] == text),
        keys.len() == 0 ==> result == seq![text],
    decreases keys.len(),
{
    if keys.len() == 0 {
        let result = seq![text];
        assert(result.to_set() =~= keys.to_set().insert(text)) by {
            assert(result[0] == text);
        }
        result
    } else {
        assert(keys.contains(keys[0]));
        lemma_text_order_equal(text, keys[0]);
        lemma_text_order_flips(text, keys[0]);
        if text_order(text, keys[0]) == Order::Less {
            let result = seq![text] + keys;
            assert forall|i: int, j: int| 0 <= i < j < result.len() implies text_order(
                #[trigger] result[i],
                #[trigger] result[j],
            ) == Order::Less by {
                if i > 0 {
                    assert(result[i] == keys[i - 1] && result[j] == keys[j - 1]);
                } else if j > 1 {
                    assert(text_order(keys[0], keys[j - 1]) == Order::Less);
                    lemma_text_order_chains(text, keys[0], keys[j - 1]);
                }
            }
            assert(result.to_set() =~= keys.to_set().insert(text)) by {
                assert forall|k: Seq<char>| result.contains(k) == (keys.contains(k) || k
                    == text) by {
                    if keys.contains(k) {
                        assert(result[keys.index_of(k) + 1] == k);
                    }
                    if result.contains(k) && k != text {
                        assert(keys[result.index_of(k) - 1] == k);
                    }
                    assert(result[0] == text);
                }
            }
            result
        } else {
            let rest = keys.skip(1);
            assert(ascending(rest)) by {
                assert forall|p: int, q: int| 0 <= p < q < rest.len() implies text_order(
                    #[trigger] rest[p],
                    #[trigger] rest[q],
                ) == Order::Less by {
                    assert(rest[p] == keys[p + 1] && rest[q] == keys[q + 1]);
                }
            }
            assert(!rest.contains(text)) by {
                if rest.contains(text) {
                    assert(keys[rest.index_of(text) + 1] == text);
                }
            }
            let placed = lemma_place_text(rest, text);
            let result = seq![keys[0]] + placed;
            assert forall|i: int, j: int| 0 <= i < j < result.len() implies text_order(
                #[trigger] result[i],
                #[trigger] result[j],
            ) == Order::Less by {
                if i > 0 {
                    assert(result[i] == placed[i - 1] && result[j] == placed[j - 1]);
                } else {
                    let k = result[j];
                    assert(placed[j - 1] == k);
                    assert(placed.to_set().contains(k));
                    if k != text {
                        assert(rest.to_set().contains(k));
                        let at = rest.index_of(k);
                        assert(keys[at + 1] == k);
                        assert(text_order(keys[0], keys[at + 1]) == Order::Less);
                    }
                }
            }
            assert(result.to_set() =~= keys.to_set().insert(text)) by {
                assert forall|k: Seq<char>| result.contains(k) == (keys.contains(k) || k
                    == text) by {
                    assert(placed.to_set().contains(k) == (rest.to_set().contains(k) || k == text));
                    if result.contains(k) {
                        let at = result.index_of(k);
                        if at > 0 {
                            assert(placed[at - 1] == k);
                            if rest.contains(k) {
                                assert(keys[rest.index_of(k) + 1] == k);
                            }
                        } else {
                            assert(keys[0] == k);
                        }
                    }
                    if keys.contains(k) {
                        let at = keys.index_of(k);
                        if at > 0 {
                            assert(rest[at - 1] == k);
                            assert(placed.contains(k));
                            assert(result[placed.index_of(k) + 1] == k);
                        } else {
                            assert(result[0] == k);
                        }
                    }
                    if k == text {
                        assert(placed.contains(k));
                        assert(result[placed.index_of(k) + 1] == k);
                    }
                }
            }
            result
        }
    }
}

proof fn lemma_listing(members: Set<Seq<char>>) -> (keys: Seq<Seq<char>>)
    requires
        members.finite(),
    ensures
        ascending(keys),
        keys.to_set() == members,
    decreases members.len(),
{
    if members.is_empty() {
        let keys = Seq::<Seq<char>>::empty();
        assert(keys.to_set() =~= members);
        keys
    } else {
        let text = members.choose();
        let rest = lemma_listing(members.remove(text));
        assert(!rest.contains(text)) by {
            if rest.contains(text) {
                assert(rest.to_set().contains(text));
            }
        }
        let keys = lemma_place_text(rest, text);
        assert(keys.to_set() =~= members);
        keys
    }
}

/// The members of a finite set of texts can be listed in ascending order.
pub proof fn lemma_ordered(members: Set<Seq<char>>)
    requires
        members.finite(),
    ensures
        ascending(ordered(members)),
        ordered(members).to_set() == members,
        forall|key: Seq<char>| #[trigger] ordered(members).contains(key) <==> members.contains(key),
{
    let keys = lemma_listing(members);
    assert(ascending(keys) && keys.to_set() == members);
    assert forall|key: Seq<char>| #[trigger] ordered(members).contains(key) <==> members.contains(
        key,
    ) by {
        assert(ordered(members).to_set().contains(key) == ordered(members).contains(key));
    }
}

/// What is kept of keys that are all different is all different.
pub proof fn lemma_kept_once(keys: Seq<Seq<char>>, test: spec_fn(Seq<char>) -> bool)
    requires
        keys.no_duplicates(),
    ensures
        kept_where(keys, test).no_duplicates(),
    decreases keys.len(),
{
    if keys.len() > 0 {
        let rest = keys.drop_last();
        lemma_kept_once(rest, test);
        lemma_kept_where(rest, test);
        let some = kept_where(rest, test);
        if some.contains(keys.last()) {
            let k = rest.index_of(keys.last());
            assert(keys[k] == keys[keys.len() - 1]);
        }
        assert forall|i: int, j: int|
            0 <= i < kept_where(keys, test).len() && 0 <= j < kept_where(keys, test).len() && i
                != j implies kept_where(keys, test)[i] != kept_where(keys, test)[j] by {
            if i < some.len() {
                assert(some.contains(some[i]));
            }
            if j < some.len() {
                assert(some.contains(some[j]));
            }
        }
    }
}

/// The members of a set are listed once each.
pub proof fn lemma_ordered_once(members: Set<Seq<char>>)
    requires
        members.finite(),
    ensures
        ordered(members).no_duplicates(),
{
    let keys = ordered(members);
    lemma_ordered(members);
    assert forall|i: int, j: int|
        0 <= i < keys.len() && 0 <= j < keys.len() && i != j implies keys[i] != keys[j] by {
        let (a, b) = if i < j {
            (keys[i], keys[j])
        } else {
            (keys[j], keys[i])
        };
        assert(text_order(a, b) == Order::Less);
        crate::order::lemma_text_order_equal(a, b);
    }
}

/// How many keys of a table meet a condition is the size of the set of those that do, and what is kept
/// of them are those that do, once each and in ascending order.
pub proof fn law_keys_are_counted(members: Set<Seq<char>>, test: spec_fn(Seq<char>) -> bool)
    requires
        members.finite(),
    ensures
        count_where(ordered(members), test) == members.filter(test).len(),
        kept_where(ordered(members), test).to_set() == members.filter(test),
        kept_where(ordered(members), test).no_duplicates(),
        ordered(members).len() == members.len(),
        first_where(ordered(members), test) is None <==> members.filter(test)
            == Set::<Seq<char>>::empty(),
        first_where(ordered(members), test) matches Some(key) ==> members.contains(key) && test(key),
{
    let keys = ordered(members);
    lemma_ordered(members);
    lemma_ordered_once(members);
    keys.unique_seq_to_set();
    lemma_kept_where(keys, test);
    lemma_kept_once(keys, test);
    kept_where(keys, test).unique_seq_to_set();
    assert(kept_where(keys, test).to_set() =~= members.filter(test));
    lemma_first_where_found(keys, test);
    if first_where(keys, test) is None {
        assert forall|key: Seq<char>| !members.filter(test).contains(key) by {
            if members.contains(key) {
                assert(keys.contains(key));
            }
        }
        assert(members.filter(test) =~= Set::<Seq<char>>::empty());
    } else {
        let key = first_where(keys, test)->0;
        assert(members.filter(test).contains(key));
    }
}

} // verus!
