//! Resources (fonts, colours, alignment, ...) that a view hands down to its
//! children while they render. Each kind of resource has a key, and a
//! collection holds at most one resource of each kind.
use std::collections::HashMap;
use vstd::prelude::*;

verus! {

/// A collection of resources, at most one per kind.
#[derive(Debug)]
pub struct Resources<R> {
    stack: HashMap<u64, R>,
}

impl<R> Resources<R> {
    /// The resources, by kind.
    pub closed spec fn entries(&self) -> Map<u64, R> {
        self.stack@
    }
}

impl<R> Default for Resources<R> {
    /// An empty collection.
    fn default() -> (r: Self)
        ensures
            r.entries() == Map::<u64, R>::empty(),
    {
        Resources { stack: HashMap::new() }
    }
}

impl<R: Clone> Clone for Resources<R> {
    /// A copy of the collection.
    fn clone(&self) -> (r: Self)
        ensures
            r.entries() == self.entries(),
    {
        Resources { stack: self.stack.clone() }
    }
}

/// What the resources are after the resource of kind `key` is put back to
/// what it was in `before`: restored if it was there, removed if not.
pub open spec fn restored<R>(after: Map<u64, R>, key: u64, before: Map<u64, R>) -> Map<u64, R> {
    if before.contains_key(key) {
        after.insert(key, before[key])
    } else {
        after.remove(key)
    }
}

/// The resources handed to a view while it renders: either a collection of
/// its own, or a borrow of its parent's. Similar to `std::borrow::Cow`.
#[derive(Debug)]
pub enum ResourceStack<'a, R> {
    /// A collection owned by this stack.
    Owned(Resources<R>),
    /// A collection borrowed from the parent.
    Borrow(&'a mut Resources<R>),
}

impl<'a, R> ResourceStack<'a, R> {
    /// The collection this stack refers to.
    pub open spec fn resources(&self) -> Resources<R> {
        match self {
            ResourceStack::Owned(r) => *r,
            ResourceStack::Borrow(r) => **r,
        }
    }

    /// A mutable reference to the underlying resources.
    fn as_mut(&mut self) -> (r: &mut Resources<R>)
        ensures
            *r == old(self).resources(),
            *final(r) == final(self).resources(),
            *old(self) is Owned <==> *final(self) is Owned,
    {
        match self {
            ResourceStack::Owned(resources) => resources,
            ResourceStack::Borrow(resources) => *resources,
        }
    }

    /// A reference to the underlying resources.
    pub fn as_ref(&self) -> (r: &Resources<R>)
        ensures
            *r == self.resources(),
    {
        match self {
            ResourceStack::Owned(resources) => resources,
            ResourceStack::Borrow(resources) => *resources,
        }
    }

    /// Temporarily add or overwrite the resource of kind `key`: `with_fn`
    /// runs on the resources with `element` in place, and afterwards the
    /// resource of that kind is put back to what it was before.
    pub fn amend_with<F, K>(&mut self, key: u64, element: R, with_fn: F) -> (k: K) where
        F: FnOnce(&mut Resources<R>) -> K,

        requires
            forall|x: &mut Resources<R>|
                (*x).entries() == old(self).resources().entries().insert(key, element)
                    ==> #[trigger] call_requires(with_fn, (x,)),
        ensures
            exists|x: &mut Resources<R>|
                {
                    &&& #[trigger] call_ensures(with_fn, (x,), k)
                    &&& (*x).entries() == old(self).resources().entries().insert(key, element)
                    &&& final(self).resources().entries() == restored(
                        (*final(x)).entries(),
                        key,
                        old(self).resources().entries(),
                    )
                },
            *old(self) is Owned <==> *final(self) is Owned,
    {
        broadcast use vstd::std_specs::hash::group_hash_axioms;
        let old_value = self.as_mut().stack.insert(key, element);
        let a = with_fn(self.as_mut());
        if let Some(old) = old_value {
            self.as_mut().stack.insert(key, old);
        } else {
            self.as_mut().stack.remove(&key);
        }
        a
    }

    /// The resource of kind `key`, if the collection holds one.
    pub fn get_resource(&self, key: u64) -> (r: Option<&R>)
        ensures
            match r {
                Some(v) => self.resources().entries().contains_key(key) && *v
                    == self.resources().entries()[key],
                None => !self.resources().entries().contains_key(key),
            },
    {
        broadcast use vstd::std_specs::hash::group_hash_axioms;
        self.as_ref().stack.get(&key)
    }
}

impl<'a, R> Default for ResourceStack<'a, R> {
    /// An empty stack that owns its resources.
    fn default() -> (s: Self)
        ensures
            s is Owned,
            s.resources().entries() == Map::<u64, R>::empty(),
    {
        ResourceStack::Owned(Default::default())
    }
}

impl<'a, R: Clone> Clone for ResourceStack<'a, R> {
    /// A stack that owns a copy of the resources.
    fn clone(&self) -> (s: Self)
        ensures
            s is Owned,
            s.resources().entries() == self.resources().entries(),
    {
        match self {
            ResourceStack::Owned(arg0) => ResourceStack::Owned(arg0.clone()),
            ResourceStack::Borrow(arg0) => ResourceStack::Owned((**arg0).clone()),
        }
    }
}

/// An amendment is temporary: when the function run under it leaves the
/// resources as it was handed them, the collection afterwards is the one
/// from before, whether or not it held a resource of that kind.
pub proof fn lemma_amend_is_undone<R>(before: Map<u64, R>, key: u64, element: R)
    ensures
        restored(before.insert(key, element), key, before) == before,
{
    assert(restored(before.insert(key, element), key, before) =~= before);
}

/// Whatever the function run under an amendment does, the resource of the
/// amended kind ends as it was before, and every other kind ends as the
/// function left it.
pub proof fn lemma_amend_restores_kind<R>(after: Map<u64, R>, key: u64, before: Map<u64, R>, other: u64)
    ensures
        restored(after, key, before).contains_key(key) == before.contains_key(key),
        before.contains_key(key) ==> restored(after, key, before)[key] == before[key],
        other != key ==> restored(after, key, before).get(other) == after.get(other),
{
}

/// Amendments nest: an inner amendment undone inside an outer one leaves the
/// outer amendment in place, and undoing the outer one then leaves the
/// collection it started from.
pub proof fn lemma_nested_amends_are_undone<R>(
    before: Map<u64, R>,
    outer: u64,
    outer_element: R,
    inner: u64,
    inner_element: R,
)
    ensures
        ({
            let amended = before.insert(outer, outer_element);
            let inner_done = restored(amended.insert(inner, inner_element), inner, amended);
            &&& inner_done == amended
            &&& restored(inner_done, outer, before) == before
        }),
{
    let amended = before.insert(outer, outer_element);
    lemma_amend_is_undone(amended, inner, inner_element);
    lemma_amend_is_undone(before, outer, outer_element);
}

} // verus!
