//! The persistent collections of `im` that values and stacks are built on.
//! Copying one is cheap: copies share their storage until one of them changes.
use crate::value::{OdraRef, OdraValue, RefKey};
use vstd::prelude::*;

verus! {

#[verifier::external_type_specification]
#[verifier::external_body]
#[verifier::reject_recursive_types(A)]
pub struct ExVector<A>(im::Vector<A>);

/// The values on a stack, bottom first.
pub uninterp spec fn stack_items(v: im::Vector<OdraValue>) -> Seq<OdraValue>;

/// Relies on `im::Vector::new`: an empty vector.
#[verifier::external_body]
pub(crate) fn stack_new() -> (r: im::Vector<OdraValue>)
    ensures
        stack_items(r) == Seq::<OdraValue>::empty(),
{
    im::Vector::new()
}

/// Relies on `im::Vector::push_back`: `x` goes after the last element.
#[verifier::external_body]
pub(crate) fn stack_push(v: &mut im::Vector<OdraValue>, x: OdraValue)
    ensures
        stack_items(*final(v)) == stack_items(*old(v)).push(x),
{
    v.push_back(x)
}

/// Relies on `im::Vector::pop_back`: the last element leaves, if there is one.
#[verifier::external_body]
pub(crate) fn stack_pop(v: &mut im::Vector<OdraValue>) -> (r: Option<OdraValue>)
    ensures
        stack_items(*old(v)).len() == 0 ==> r is None && stack_items(*final(v)) == stack_items(
            *old(v),
        ),
        stack_items(*old(v)).len() > 0 ==> r == Some(stack_items(*old(v)).last())
            && stack_items(*final(v)) == stack_items(*old(v)).drop_last(),
{
    v.pop_back()
}

/// Relies on `im::Vector::len`: the number of elements.
#[verifier::external_body]
pub(crate) fn stack_len(v: &im::Vector<OdraValue>) -> (r: usize)
    ensures
        r == stack_items(*v).len(),
{
    v.len()
}

/// A persistent sequence of references (an `im::Vector`).
#[verifier::external_body]
#[derive(Debug, PartialEq, Hash)]
pub struct RefList {
    items: im::Vector<OdraRef>,
}

/// The references in a list, in order.
pub uninterp spec fn list_items(l: RefList) -> Seq<OdraRef>;

impl RefList {
    /// Relies on `im::Vector::new`: an empty list.
    #[verifier::external_body]
    pub fn new() -> (r: RefList)
        ensures
            list_items(r) == Seq::<OdraRef>::empty(),
    {
        RefList { items: im::Vector::new() }
    }

    /// Relies on `im::Vector::clone`: a copy with the same elements, sharing
    /// the storage of this one.
    #[verifier::external_body]
    fn copy(&self) -> (r: RefList)
        ensures
            list_items(r) == list_items(*self),
    {
        RefList { items: self.items.clone() }
    }

    /// Relies on `im::Vector::push_back`: `item` goes after the last element.
    #[verifier::external_body]
    fn push_back(&mut self, item: OdraRef)
        ensures
            list_items(*final(self)) == list_items(*old(self)).push(item),
    {
        self.items.push_back(item)
    }

    /// Relies on `im::Vector::len`: the number of elements.
    #[verifier::external_body]
    pub fn len(&self) -> (r: usize)
        ensures
            r == list_items(*self).len(),
    {
        self.items.len()
    }

    /// Relies on `im::Vector::iter`: the elements, in order.
    #[verifier::external_body]
    pub fn to_vec(&self) -> (r: Vec<OdraRef>)
        ensures
            r@ == list_items(*self),
    {
        self.items.iter().cloned().collect()
    }

    /// A new list: this one with `item` added at the end. This list is left
    /// as it was.
    pub fn push(&self, item: OdraRef) -> (r: RefList)
        ensures
            list_items(r) == list_items(*self).push(item),
    {
        let mut r = self.copy();
        r.push_back(item);
        r
    }
}

/// A persistent map from references to references (an `im::HashMap`),
/// keyed by reference equality.
#[verifier::external_body]
#[derive(Debug, PartialEq, Hash)]
pub struct RefMap {
    entries: im::HashMap<OdraRef, OdraRef>,
}

/// The entries of a map: for each key identity, the key and its value.
pub uninterp spec fn map_entries(m: RefMap) -> Map<RefKey, (OdraRef, OdraRef)>;

impl Clone for RefList {
    fn clone(&self) -> (r: RefList)
        ensures
            list_items(r) == list_items(*self),
    {
        self.copy()
    }
}

impl RefMap {
    /// Relies on `im::HashMap::new`: an empty map.
    #[verifier::external_body]
    pub fn new() -> (r: RefMap)
        ensures
            map_entries(r).dom() == Set::<RefKey>::empty(),
    {
        RefMap { entries: im::HashMap::new() }
    }

    /// Relies on `im::HashMap::clone`: a copy with the same entries, sharing
    /// the storage of this one.
    #[verifier::external_body]
    fn copy(&self) -> (r: RefMap)
        ensures
            map_entries(r) == map_entries(*self),
    {
        RefMap { entries: self.entries.clone() }
    }

    /// Relies on `im::HashMap::insert`: the entry for `key` becomes
    /// `(key, value)`, whether or not there was one.
    #[verifier::external_body]
    fn insert(&mut self, key: OdraRef, value: OdraRef)
        ensures
            map_entries(*final(self)) == map_entries(*old(self)).insert(key.key(), (key, value)),
    {
        self.entries.insert(key, value);
    }

    /// Relies on `im::HashMap::get`: the value stored for `key`, if any.
    #[verifier::external_body]
    pub fn get(&self, key: &OdraRef) -> (r: Option<OdraRef>)
        ensures
            map_entries(*self).contains_key(key.key()) ==> r == Some(
                map_entries(*self)[key.key()].1,
            ),
            !map_entries(*self).contains_key(key.key()) ==> r is None,
    {
        self.entries.get(key).cloned()
    }

    /// Relies on `im::HashMap::len`: the number of entries.
    #[verifier::external_body]
    pub fn len(&self) -> (r: usize)
        ensures
            r == map_entries(*self).len(),
    {
        self.entries.len()
    }

    /// Relies on `im::HashMap::iter`: each entry once, in no particular order.
    #[verifier::external_body]
    pub fn entries(&self) -> (r: Vec<(OdraRef, OdraRef)>)
        ensures
            r.len() == map_entries(*self).len(),
            forall|j: int|
                0 <= j < r.len() ==> #[trigger] map_entries(*self).contains_key(r@[j].0.key())
                    && map_entries(*self)[r@[j].0.key()] == r@[j],
            forall|k: RefKey| #[trigger]
                map_entries(*self).contains_key(k) ==> exists|j: int|
                    0 <= j < r.len() && #[trigger] r@[j].0.key() == k,
    {
        self.entries.iter().map(|(k, v)| (k.clone(), v.clone())).collect()
    }

    /// A new map: this one with `key` bound to `value`. This map is left as
    /// it was.
    pub fn update(&self, key: OdraRef, value: OdraRef) -> (r: RefMap)
        ensures
            map_entries(r) == map_entries(*self).insert(key.key(), (key, value)),
    {
        let mut r = self.copy();
        r.insert(key, value);
        r
    }
}

impl Clone for RefMap {
    fn clone(&self) -> (r: RefMap)
        ensures
            map_entries(r) == map_entries(*self),
    {
        self.copy()
    }
}

} // verus!
