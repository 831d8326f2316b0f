//! Models of optional and listed values, and copies that keep the model.
use vstd::prelude::*;
use vstd::string::*;


verus! {

/// The model of an optional value.
pub open spec fn optional<T: View>(value: Option<T>) -> Option<T::V> {
    match value {
        Some(value) => Some(value@),
        None => None,
    }
}

/// The models of the values in a list.
pub open spec fn views<T: View>(list: Seq<T>) -> Seq<T::V> {
    list.map_values(|value: T| value@)
}

/// A value of which another can be made that has the same model.
pub trait Duplicate: View + Sized {
    fn duplicate(&self) -> (result: Self)
        ensures
            result@ == self@,
    ;
}

impl Duplicate for String {
    fn duplicate(&self) -> (result: String)
        ensures
            result == *self,
    {
        self.clone()
    }
}

impl Duplicate for u64 {
    fn duplicate(&self) -> (result: u64) {
        *self
    }
}

impl Duplicate for bool {
    fn duplicate(&self) -> (result: bool) {
        *self
    }
}

pub fn duplicate_option<T: Duplicate>(value: &Option<T>) -> (result: Option<T>)
    ensures
        optional(result) == optional(*value),
{
    match value {
        Some(value) => Some(value.duplicate()),
        None => None,
    }
}

pub fn duplicate_list<T: Duplicate>(list: &Vec<T>) -> (result: Vec<T>)
    ensures
        views(result@) == views(list@),
        result@.len() == list@.len(),
{
    let mut result: Vec<T> = Vec::new();
    let mut i: usize = 0;
    proof {
        assert(views(result@) =~= views(list@.take(0)));
    }
    while i < list.len()
        invariant
            i <= list.len(),
            views(result@) == views(list@.take(i as int)),
        decreases list.len() - i,
    {
        let copy = list[i].duplicate();
        let ghost before = views(result@);
        result.push(copy);
        proof {
            assert(views(result@) =~= before.push(copy@));
            assert(views(list@.take(i + 1)) =~= views(list@.take(i as int)).push(list@[i as int]@));
        }
        i += 1;
    }
    proof {
        assert(list@.take(list@.len() as int) =~= list@);
        assert(views(result@).len() == views(list@).len());
    }
    result
}

/// One more value behind a list.
pub proof fn lemma_views_push<T: View>(list: Seq<T>, value: T)
    ensures
        views(list.push(value)) == views(list).push(value@),
{
    assert(views(list.push(value)) =~= views(list).push(value@));
}

} // verus!
