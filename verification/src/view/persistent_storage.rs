//! Storage that survives rerenders of a view, and the garbage collection
//! of native views that have to outlive a single render pass.
use crate::view::shared::{ref_cell_new, ref_cell_try_borrow, ref_cell_try_borrow_mut};
use std::cell::{BorrowError, BorrowMutError, Ref, RefCell, RefMut};
use std::collections::BTreeMap;
use std::rc::Rc;
use vstd::prelude::*;
use vstd::std_specs::iter::IteratorSpec;

verus! {

/// Meta information on an object to be garbage collected: the cleanup
/// function and whether the object is kept in the next collection cycle.
pub struct GarbageCollectable<F> {
    remove_fn: F,
    /// Before rerendering this flag is set to false; if it is still false
    /// when a cycle runs, `remove_fn` is called.
    flagged_to_keep: bool,
}

impl<F> GarbageCollectable<F> {
    /// The cleanup function.
    pub closed spec fn removal(&self) -> F {
        self.remove_fn
    }

    /// Whether the next collection cycle keeps this object.
    pub closed spec fn kept(&self) -> bool {
        self.flagged_to_keep
    }
}

/// Storage handed to the children of a mutable view. A child uses its
/// identity, together with a key for the kind of object, to find data that
/// persists between rerenders.
pub struct PersistentStorage<V, F> {
    map: BTreeMap<(usize, u64), V>,
    /// Views that registered for garbage collection, by identity.
    garbage_collection: BTreeMap<usize, GarbageCollectable<F>>,
}

/// The collection model: for each registered identity, its cleanup
/// function and its keep flag.
pub open spec fn gc_model<F>(m: Map<usize, GarbageCollectable<F>>) -> Map<usize, (F, bool)> {
    m.map_values(|g: GarbageCollectable<F>| (g.removal(), g.kept()))
}

/// What a collection cycle leaves: the entries flagged to be kept.
pub open spec fn survivors<F>(m: Map<usize, (F, bool)>) -> Map<usize, (F, bool)> {
    m.filter_keys(|k: usize| m[k].1)
}

/// The identities that a collection cycle removes.
pub open spec fn doomed<F>(m: Map<usize, (F, bool)>) -> Set<usize> {
    m.dom().filter(|k: usize| !m[k].1)
}

/// The effect of marking `identity` as used: its keep flag is set, if it is
/// registered at all.
pub open spec fn marked_used<F>(m: Map<usize, (F, bool)>, identity: usize) -> Map<usize, (F, bool)> {
    if m.contains_key(identity) {
        m.insert(identity, (m[identity].0, true))
    } else {
        m
    }
}

/// Every entry with its keep flag cleared.
pub open spec fn all_unset<F>(m: Map<usize, (F, bool)>) -> Map<usize, (F, bool)> {
    m.map_values(|e: (F, bool)| (e.0, false))
}

impl<V, F> PersistentStorage<V, F> {
    /// The stored objects, by identity and kind.
    pub closed spec fn items(&self) -> Map<(usize, u64), V> {
        self.map@
    }

    /// The registered garbage collectables: cleanup function and keep flag.
    pub closed spec fn collectables(&self) -> Map<usize, (F, bool)> {
        gc_model(self.garbage_collection@)
    }

    /// The object stored for `identity` of the given `kind`, if any.
    pub fn get(&self, identity: usize, kind: u64) -> (r: Option<&V>)
        ensures
            match r {
                Some(v) => self.items().contains_key((identity, kind)) && *v == self.items()[(
                    identity,
                    kind,
                )],
                None => !self.items().contains_key((identity, kind)),
            },
    {
        broadcast use vstd::std_specs::btree::group_btree_axioms;
        self.map.get(&(identity, kind))
    }

    /// Store `item` for `identity` and `kind`, replacing any object that was
    /// stored there.
    pub fn insert(&mut self, identity: usize, kind: u64, item: V)
        ensures
            final(self).items() == old(self).items().insert((identity, kind), item),
            final(self).collectables() == old(self).collectables(),
    {
        self.map.insert((identity, kind), item);
    }

    /// The registered identities, each once, in ascending order.
    fn identities(&self) -> (keys: Vec<usize>)
        ensures
            keys@.to_set() == self.collectables().dom(),
            keys@.no_duplicates(),
    {
        broadcast use vstd::std_specs::btree::group_btree_axioms;
        let mut keys: Vec<usize> = Vec::new();
        let ghost full = vstd::std_specs::btree::spec_keys_iter(&self.garbage_collection).remaining();
        for k in it: self.garbage_collection.keys()
            invariant
                it.seq() == full,
                keys@ == it.seq().take(it.index() as int).map_values(|r: &usize| *r),
        {
            keys.push(*k);
        }
        assert(keys@ =~= full.unref());
        assert(self.collectables().dom() =~= self.garbage_collection@.dom());
        keys
    }

    /// Register `removal_fn` as the cleanup of the view with `identity`,
    /// flagged to be kept in the next cycle. An earlier registration for the
    /// same identity is replaced.
    pub fn register_for_garbage_collection(&mut self, identity: usize, removal_fn: F)
        ensures
            final(self).collectables() == old(self).collectables().insert(
                identity,
                (removal_fn, true),
            ),
            final(self).items() == old(self).items(),
    {
        self.garbage_collection.insert(
            identity,
            GarbageCollectable { remove_fn: removal_fn, flagged_to_keep: true },
        );
        assert(self.collectables() =~= old(self).collectables().insert(identity, (removal_fn, true)));
    }

    /// Mark `identity` as used, so that the next cycle does not collect it.
    /// An identity that is not registered is left alone.
    pub fn garbage_collection_mark_used(&mut self, identity: usize)
        ensures
            final(self).collectables() == marked_used(old(self).collectables(), identity),
            final(self).items() == old(self).items(),
    {
        broadcast use vstd::std_specs::btree::group_btree_axioms;
        if let Some(mut gc) = self.garbage_collection.remove(&identity) {
            gc.flagged_to_keep = true;
            self.garbage_collection.insert(identity, gc);
            assert(self.collectables() =~= old(self).collectables().insert(
                identity,
                (old(self).collectables()[identity].0, true),
            ));
        }
    }

    /// Clear the keep flag of every registered view, so that each of them is
    /// collected in the next cycle unless it is marked as used before.
    pub fn garbage_collection_unset_all(&mut self)
        ensures
            final(self).collectables() == all_unset(old(self).collectables()),
            final(self).items() == old(self).items(),
    {
        broadcast use vstd::std_specs::btree::group_btree_axioms;
        let ghost start = self.collectables();
        let keys = self.identities();
        let n: usize = keys.len();
        for i in 0..n
            invariant
                n == keys.len(),
                keys@.no_duplicates(),
                keys@.to_set() == start.dom(),
                self.items() == old(self).items(),
                self.collectables().dom() == start.dom(),
                forall|j: int|
                    0 <= j < i ==> #[trigger] self.collectables()[keys@[j]] == (
                        start[keys@[j]].0,
                        false,
                    ),
                forall|j: int|
                    i <= j < n ==> #[trigger] self.collectables()[keys@[j]] == start[keys@[j]],
        {
            let k: usize = keys[i];
            assert(keys@.to_set().contains(k));
            let ghost before = self.collectables();
            if let Some(mut gc) = self.garbage_collection.remove(&k) {
                gc.flagged_to_keep = false;
                self.garbage_collection.insert(k, gc);
            }
            assert(self.collectables() =~= before.insert(k, (before[k].0, false)));
            assert forall|j: int| 0 <= j < n && j != i implies keys@[j] != k by {}
        }
        assert forall|k: usize| #[trigger] start.contains_key(k) implies self.collectables()[k]
            == (start[k].0, false) by {
            assert(keys@.to_set().contains(k));
        }
        assert(self.collectables() =~= all_unset(start));
    }

    /// Commit a collection cycle: every registered view that is not flagged
    /// to be kept is unregistered and its cleanup function is called, in
    /// ascending order of identity.
    pub fn garbage_collection_cycle(&mut self) where F: FnOnce()
        requires
            forall|k: usize|
                #[trigger] doomed(old(self).collectables()).contains(k) ==> call_requires(
                    old(self).collectables()[k].0,
                    (),
                ),
        ensures
            final(self).collectables() == survivors(old(self).collectables()),
            final(self).items() == old(self).items(),
            forall|k: usize|
                #[trigger] doomed(old(self).collectables()).contains(k) ==> call_ensures(
                    old(self).collectables()[k].0,
                    (),
                    (),
                ),
    {
        broadcast use vstd::std_specs::btree::group_btree_axioms;
        let ghost start = self.collectables();
        let keys = self.identities();
        let n: usize = keys.len();
        let mut removals: Vec<usize> = Vec::new();
        for i in 0..n
            invariant
                n == keys.len(),
                keys@.no_duplicates(),
                keys@.to_set() == start.dom(),
                self.collectables() == start,
                removals@.no_duplicates(),
                forall|j: int|
                    0 <= j < removals.len() ==> doomed(start).contains(#[trigger] removals@[j])
                        && keys@.take(i as int).contains(removals@[j]),
                forall|j: int|
                    0 <= j < i && doomed(start).contains(#[trigger] keys@[j]) ==> removals@.contains(
                        keys@[j],
                    ),
        {
            let k: usize = keys[i];
            assert(keys@.to_set().contains(k));
            assert(!keys@.take(i as int).contains(k));
            let ghost prev = removals@;
            match self.garbage_collection.get(&k) {
                Some(g) => {
                    assert(start[k] == (g.remove_fn, g.flagged_to_keep));
                    if !g.flagged_to_keep {
                        removals.push(k);
                        assert(removals@ == prev.push(k));
                    }
                },
                None => {},
            }
            assert forall|j: int|
                0 <= j < i + 1 && doomed(start).contains(#[trigger] keys@[j]) implies removals@.contains(
                keys@[j],
            ) by {
                if j < i {
                    assert(prev.contains(keys@[j]));
                    let m: int = choose|m: int| 0 <= m < prev.len() && prev[m] == keys@[j];
                    assert(removals@[m] == keys@[j]);
                } else {
                    assert(removals@[removals.len() - 1] == k);
                }
            }
            assert forall|j: int|
                0 <= j < removals.len() implies keys@.take(i + 1).contains(#[trigger] removals@[j]) by {
                if removals@[j] != k {
                    let m: int = choose|m: int| 0 <= m < i && keys@.take(i as int)[m] == removals@[j];
                    assert(keys@.take(i + 1)[m] == removals@[j]);
                } else {
                    assert(keys@.take(i + 1)[i as int] == k);
                }
            }
        }
        assert(removals@.to_set() =~= doomed(start)) by {
            assert forall|k: usize| doomed(start).contains(k) implies removals@.contains(k) by {
                assert(keys@.to_set().contains(k));
            }
        }
        let r: usize = removals.len();
        for i in 0..r
            invariant
                r == removals.len(),
                removals@.no_duplicates(),
                removals@.to_set() == doomed(start),
                forall|k: usize|
                    #[trigger] doomed(start).contains(k) ==> call_requires(start[k].0, ()),
                self.items() == old(self).items(),
                self.collectables() == start.remove_keys(removals@.take(i as int).to_set()),
                forall|j: int|
                    0 <= j < i ==> call_ensures(start[#[trigger] removals@[j]].0, (), ()),
        {
            let k: usize = removals[i];
            assert(removals@.to_set().contains(k));
            assert(!removals@.take(i as int).contains(k));
            let ghost before = self.collectables();
            assert(before[k] == start[k]);
            assert(before.contains_key(k));
            assert(self.garbage_collection@.contains_key(k));
            let entry = self.garbage_collection.remove(&k).unwrap();
            assert(before[k] == (entry.remove_fn, entry.flagged_to_keep));
            assert(self.collectables() =~= before.remove(k));
            (entry.remove_fn)();
            assert(removals@.take(i + 1).to_set() =~= removals@.take(i as int).to_set().insert(k)) by {
                assert(removals@.take(i + 1) =~= removals@.take(i as int).push(k));
                removals@.take(i as int).lemma_push_to_set_commute(k);
            }
            assert(self.collectables() =~= start.remove_keys(removals@.take(i + 1).to_set()));
        }
        assert(removals@.take(r as int) =~= removals@);
        assert(self.collectables() =~= survivors(start));
        assert forall|k: usize| #[trigger] doomed(start).contains(k) implies call_ensures(
            start[k].0,
            (),
            (),
        ) by {
            assert(removals@.to_set().contains(k));
            let j: int = choose|j: int| 0 <= j < removals.len() && removals@[j] == k;
        }
    }

    /// The object stored for `identity` and `kind`; when there is none, the
    /// result of `init` is stored first.
    pub fn get_or_init_with<'a, I: FnOnce() -> V>(
        &'a mut self,
        identity: usize,
        kind: u64,
        init: I,
    ) -> (r: &'a V)
        requires
            !old(self).items().contains_key((identity, kind)) ==> call_requires(init, ()),
        ensures
            old(self).items().contains_key((identity, kind)) ==> final(self).items() == old(
                self,
            ).items(),
            !old(self).items().contains_key((identity, kind)) ==> exists|v: V|
                call_ensures(init, (), v) && final(self).items() == old(self).items().insert(
                    (identity, kind),
                    v,
                ),
            final(self).items().contains_key((identity, kind)),
            *r == final(self).items()[(identity, kind)],
            final(self).collectables() == old(self).collectables(),
    {
        broadcast use vstd::std_specs::btree::group_btree_axioms;
        if self.map.get(&(identity, kind)).is_none() {
            let item = init();
            self.insert(identity, kind, item);
        }
        self.map.get(&(identity, kind)).unwrap()
    }

    /// The object stored for `identity` and `kind`; when there is none, `init`
    /// makes one together with its cleanup function, the object is stored and
    /// the cleanup is registered for `identity`. Only one cleanup can be
    /// registered per identity.
    pub fn get_or_register_gc<'a, I: FnOnce() -> (V, F)>(
        &'a mut self,
        identity: usize,
        kind: u64,
        init: I,
    ) -> (r: &'a V)
        requires
            !old(self).items().contains_key((identity, kind)) ==> call_requires(init, ()),
        ensures
            old(self).items().contains_key((identity, kind)) ==> {
                &&& final(self).items() == old(self).items()
                &&& final(self).collectables() == old(self).collectables()
            },
            !old(self).items().contains_key((identity, kind)) ==> exists|made: (V, F)|
                {
                    &&& call_ensures(init, (), made)
                    &&& final(self).items() == old(self).items().insert((identity, kind), made.0)
                    &&& final(self).collectables() == old(self).collectables().insert(
                        identity,
                        (made.1, true),
                    )
                },
            final(self).items().contains_key((identity, kind)),
            *r == final(self).items()[(identity, kind)],
    {
        broadcast use vstd::std_specs::btree::group_btree_axioms;
        if self.map.get(&(identity, kind)).is_none() {
            let made = init();
            let (item, gc) = made;
            self.insert(identity, kind, item);
            self.register_for_garbage_collection(identity, gc);
        }
        self.map.get(&(identity, kind)).unwrap()
    }
}

impl<V, F> Default for PersistentStorage<V, F> {
    /// An empty storage.
    fn default() -> (s: Self)
        ensures
            s.items() == Map::<(usize, u64), V>::empty(),
            s.collectables() == Map::<usize, (F, bool)>::empty(),
    {
        let s = PersistentStorage { map: BTreeMap::new(), garbage_collection: BTreeMap::new() };
        assert(s.collectables() =~= Map::<usize, (F, bool)>::empty());
        s
    }
}

/// A handle to a [`PersistentStorage`] that can be cloned cheaply; every
/// clone refers to the same storage.
#[verifier::reject_recursive_types(V)]
#[verifier::reject_recursive_types(F)]
pub struct PersistentStorageRef<V, F> {
    /// The shared storage.
    pub cell: Rc<RefCell<PersistentStorage<V, F>>>,
}

impl<V, F> PersistentStorageRef<V, F> {
    /// A reference to the storage, or an error while it is mutably
    /// borrowed through any handle.
    pub fn borrow(&self) -> Result<Ref<'_, PersistentStorage<V, F>>, BorrowError> {
        ref_cell_try_borrow(&*self.cell)
    }

    /// A mutable reference to the storage, or an error while it is borrowed
    /// through any handle.
    pub fn borrow_mut(&self) -> Result<RefMut<'_, PersistentStorage<V, F>>, BorrowMutError> {
        ref_cell_try_borrow_mut(&*self.cell)
    }
}

impl<V, F> Default for PersistentStorageRef<V, F> {
    /// A handle to a new, empty storage.
    fn default() -> (r: Self) {
        PersistentStorageRef { cell: Rc::new(ref_cell_new(PersistentStorage::default())) }
    }
}

impl<V, F> Clone for PersistentStorageRef<V, F> {
    /// Another handle to the same storage.
    fn clone(&self) -> (r: Self)
        ensures
            r.cell == self.cell,
    {
        PersistentStorageRef { cell: self.cell.clone() }
    }
}

/// A lookup after a store gives back the stored object, and a store leaves
/// the objects of every other identity or kind as they were.
pub proof fn lemma_store_then_lookup<V>(
    items: Map<(usize, u64), V>,
    identity: usize,
    kind: u64,
    item: V,
    other: (usize, u64),
)
    ensures
        items.insert((identity, kind), item).contains_key((identity, kind)),
        items.insert((identity, kind), item)[(identity, kind)] == item,
        other != (identity, kind) ==> items.insert((identity, kind), item).get(other) == items.get(
            other,
        ),
{
}

/// The stored objects after the stores in `stores` are made in order,
/// starting from `items`. Each `insert`, and each `get_or_init_with` or
/// `get_or_register_gc` that finds nothing, is one such store.
pub open spec fn after_stores<V>(
    items: Map<(usize, u64), V>,
    stores: Seq<((usize, u64), V)>,
) -> Map<(usize, u64), V>
    decreases stores.len(),
{
    if stores.len() == 0 {
        items
    } else {
        after_stores(items, stores.drop_last()).insert(stores.last().0, stores.last().1)
    }
}

/// The object most recently stored under `key` by `stores`, if any.
pub open spec fn last_stored<V>(stores: Seq<((usize, u64), V)>, key: (usize, u64)) -> Option<V>
    decreases stores.len(),
{
    if stores.len() == 0 {
        None
    } else if stores.last().0 == key {
        Some(stores.last().1)
    } else {
        last_stored(stores.drop_last(), key)
    }
}

/// Over any sequence of stores into an empty storage, a lookup finds the
/// object most recently stored under its identity and kind, and nothing if
/// none was ever stored there: an object of another kind, or under another
/// identity, never matches.
pub proof fn lemma_lookup_gives_last_store<V>(stores: Seq<((usize, u64), V)>, key: (usize, u64))
    ensures
        after_stores(Map::empty(), stores).get(key) == last_stored(stores, key),
    decreases stores.len(),
{
    if stores.len() > 0 {
        lemma_lookup_gives_last_store(stores.drop_last(), key);
    }
}

/// Marking an identity as used sets that identity's keep flag and keeps its
/// cleanup; whether any identity is registered, and the cleanup and flag of
/// every other identity, stay exactly as they were.
pub proof fn lemma_mark_used_is_local<F>(m: Map<usize, (F, bool)>, identity: usize, other: usize)
    ensures
        marked_used(m, identity).dom() == m.dom(),
        m.contains_key(identity) ==> marked_used(m, identity)[identity] == (m[identity].0, true),
        other != identity ==> marked_used(m, identity).get(other) == m.get(other),
{
    assert(marked_used(m, identity).dom() =~= m.dom());
}

/// Registering a cleanup, or marking an identity as used, never clears a
/// keep flag: every identity that was registered and kept is still
/// registered and kept, with the same cleanup unless it was registered anew.
pub proof fn lemma_flags_only_cleared_by_unset<F>(m: Map<usize, (F, bool)>, op: GcOp<F>, k: usize)
    requires
        op is Register || op is MarkUsed,
        m.contains_key(k),
        m[k].1,
    ensures
        gc_step(m, op).contains_key(k),
        gc_step(m, op)[k].1,
        !(op matches GcOp::Register(identity, _) && identity == k) ==> gc_step(m, op)[k] == m[k],
{
}

/// Clearing all flags keeps every registration and its cleanup, and leaves
/// no identity flagged to be kept.
pub proof fn lemma_unset_all_clears_flags<F>(m: Map<usize, (F, bool)>, k: usize)
    ensures
        all_unset(m).dom() == m.dom(),
        m.contains_key(k) ==> all_unset(m)[k] == (m[k].0, false),
{
    assert(all_unset(m).dom() =~= m.dom());
}

/// A cycle keeps exactly the registrations flagged to be kept, unchanged,
/// and removes exactly the others.
pub proof fn lemma_cycle_keeps_exactly_flagged<F>(m: Map<usize, (F, bool)>, k: usize)
    ensures
        survivors(m).contains_key(k) <==> m.contains_key(k) && m[k].1,
        survivors(m).contains_key(k) ==> survivors(m)[k] == m[k],
        doomed(m).contains(k) <==> m.contains_key(k) && !m[k].1,
{
}

/// The collection protocol: after every flag is cleared and one registered
/// identity is marked as used, a cycle keeps exactly that identity, with its
/// cleanup function, and collects every other one.
pub proof fn lemma_only_marked_views_survive<F>(m: Map<usize, (F, bool)>, identity: usize)
    ensures
        survivors(marked_used(all_unset(m), identity)) == (if m.contains_key(identity) {
            Map::<usize, (F, bool)>::empty().insert(identity, (m[identity].0, true))
        } else {
            Map::<usize, (F, bool)>::empty()
        }),
        doomed(marked_used(all_unset(m), identity)) == m.dom().remove(identity),
{
    let after = marked_used(all_unset(m), identity);
    if m.contains_key(identity) {
        assert(survivors(after) =~= Map::<usize, (F, bool)>::empty().insert(
            identity,
            (m[identity].0, true),
        ));
    } else {
        assert(survivors(after) =~= Map::<usize, (F, bool)>::empty());
    }
    assert(doomed(after) =~= m.dom().remove(identity));
}

/// Once the flags are cleared, every registered view is collected by the
/// next cycle unless it is marked as used first.
pub proof fn lemma_unset_dooms_all<F>(m: Map<usize, (F, bool)>)
    ensures
        doomed(all_unset(m)) == m.dom(),
        survivors(all_unset(m)) == Map::<usize, (F, bool)>::empty(),
{
    assert(doomed(all_unset(m)) =~= m.dom());
    assert(survivors(all_unset(m)) =~= Map::<usize, (F, bool)>::empty());
}

/// A view that was just registered, or marked as used, survives the next
/// cycle with its cleanup function.
pub proof fn lemma_kept_views_survive<F>(m: Map<usize, (F, bool)>, identity: usize, removal: F)
    ensures
        survivors(m.insert(identity, (removal, true))).contains_key(identity),
        survivors(m.insert(identity, (removal, true)))[identity] == (removal, true),
        m.contains_key(identity) ==> survivors(marked_used(m, identity)).contains_key(identity),
{
}

/// A cycle collects each view at most once: what it collects is no longer
/// registered afterwards, so a second cycle right after it collects nothing
/// and changes nothing.
pub proof fn lemma_cycle_collects_once<F>(m: Map<usize, (F, bool)>)
    ensures
        doomed(m).disjoint(survivors(m).dom()),
        doomed(survivors(m)) == Set::<usize>::empty(),
        survivors(survivors(m)) == survivors(m),
        survivors(m).dom() + doomed(m) == m.dom(),
{
    assert(doomed(survivors(m)) =~= Set::<usize>::empty());
    assert(survivors(survivors(m)) =~= survivors(m));
    assert(survivors(m).dom() + doomed(m) =~= m.dom());
}

/// One call on the collection side of a storage, as its contract describes
/// it: `register_for_garbage_collection` (or a `get_or_register_gc` that
/// registers), `garbage_collection_mark_used`, `garbage_collection_unset_all`
/// or `garbage_collection_cycle`.
pub enum GcOp<F> {
    /// Register a cleanup under an identity.
    Register(usize, F),
    /// Mark an identity as used.
    MarkUsed(usize),
    /// Clear every keep flag.
    UnsetAll,
    /// Run a collection cycle.
    Cycle,
}

/// The registered cleanups after one call.
pub open spec fn gc_step<F>(m: Map<usize, (F, bool)>, op: GcOp<F>) -> Map<usize, (F, bool)> {
    match op {
        GcOp::Register(identity, f) => m.insert(identity, (f, true)),
        GcOp::MarkUsed(identity) => marked_used(m, identity),
        GcOp::UnsetAll => all_unset(m),
        GcOp::Cycle => survivors(m),
    }
}

/// The registered cleanups after the calls in `ops`, from a new storage.
pub open spec fn gc_run<F>(ops: Seq<GcOp<F>>) -> Map<usize, (F, bool)>
    decreases ops.len(),
{
    if ops.len() == 0 {
        Map::empty()
    } else {
        gc_step(gc_run(ops.drop_last()), ops.last())
    }
}

/// The cleanups that the call at position `i` of `ops` calls: those of the
/// identities a cycle finds unflagged; no other call calls any.
pub open spec fn cleanups_called_at<F>(ops: Seq<GcOp<F>>, i: int) -> Set<F> {
    let before = gc_run(ops.take(i));
    if ops[i] is Cycle {
        Set::new(
            |f: F| exists|k: usize| #[trigger] doomed(before).contains(k) && before[k].0 == f,
        )
    } else {
        Set::empty()
    }
}

/// Whether `f` is registered by a call before position `i`.
pub open spec fn registered_before<F>(ops: Seq<GcOp<F>>, i: int, f: F) -> bool {
    exists|p: int| 0 <= p < i && #[trigger] ops[p] == GcOp::Register(ops[p]->Register_0, f)
}

/// Every registration hands over a cleanup of its own.
pub open spec fn distinct_registrations<F>(ops: Seq<GcOp<F>>) -> bool {
    forall|p: int, q: int|
        0 <= p < q < ops.len() && #[trigger] ops[p] is Register && #[trigger] ops[q] is Register
            ==> ops[p]->Register_1 != ops[q]->Register_1
}

/// What holds of the registered cleanups after the first `k` calls: each
/// was registered earlier, no two identities share one, and none of them
/// was called by an earlier call.
pub open spec fn gc_history_inv<F>(ops: Seq<GcOp<F>>, k: int) -> bool {
    let st = gc_run(ops.take(k));
    &&& forall|key: usize| #[trigger] st.contains_key(key) ==> registered_before(ops, k, st[key].0)
    &&& forall|k1: usize, k2: usize|
        #[trigger] st.contains_key(k1) && #[trigger] st.contains_key(k2) && k1 != k2 ==> st[k1].0
            != st[k2].0
    &&& forall|i: int, key: usize|
        0 <= i < k && #[trigger] st.contains_key(key) ==> !#[trigger] cleanups_called_at(
            ops,
            i,
        ).contains(st[key].0)
}

proof fn lemma_called_were_registered<F>(ops: Seq<GcOp<F>>, i: int, f: F)
    requires
        distinct_registrations(ops),
        0 <= i < ops.len(),
        cleanups_called_at(ops, i).contains(f),
    ensures
        registered_before(ops, i, f),
    decreases i, 1int,
{
    lemma_gc_history(ops, i);
    let before = gc_run(ops.take(i));
    let k = choose|k: usize| #[trigger] doomed(before).contains(k) && before[k].0 == f;
    assert(before.contains_key(k));
}

proof fn lemma_gc_history<F>(ops: Seq<GcOp<F>>, k: int)
    requires
        distinct_registrations(ops),
        0 <= k <= ops.len(),
    ensures
        gc_history_inv(ops, k),
    decreases k, 0int,
{
    if k == 0 {
        assert(gc_run(ops.take(0)) =~= Map::<usize, (F, bool)>::empty()) by {
            assert(ops.take(0).len() == 0);
        }
    } else {
        let j = k - 1;
        lemma_gc_history(ops, j);
        let prev = gc_run(ops.take(j));
        let st = gc_run(ops.take(k));
        assert(ops.take(k).drop_last() =~= ops.take(j));
        assert(st == gc_step(prev, ops[j]));
        let op = ops[j];
        assert forall|key: usize| #[trigger] st.contains_key(key) implies registered_before(
            ops,
            k,
            st[key].0,
        ) by {
            match op {
                GcOp::Register(identity, f) => {
                    if key == identity {
                        assert(ops[j] == GcOp::Register(ops[j]->Register_0, f));
                    } else {
                        assert(prev.contains_key(key));
                        let p = choose|p: int|
                            0 <= p < j && #[trigger] ops[p] == GcOp::Register(
                                ops[p]->Register_0,
                                prev[key].0,
                            );
                    }
                },
                _ => {
                    assert(prev.contains_key(key));
                    assert(st[key].0 == prev[key].0);
                    let p = choose|p: int|
                        0 <= p < j && #[trigger] ops[p] == GcOp::Register(
                            ops[p]->Register_0,
                            prev[key].0,
                        );
                },
            }
        }
        assert forall|k1: usize, k2: usize|
            #[trigger] st.contains_key(k1) && #[trigger] st.contains_key(k2) && k1 != k2 implies st[k1].0
            != st[k2].0 by {
            match op {
                GcOp::Register(identity, f) => {
                    if k1 == identity {
                        assert(prev.contains_key(k2));
                        let p = choose|p: int|
                            0 <= p < j && #[trigger] ops[p] == GcOp::Register(
                                ops[p]->Register_0,
                                prev[k2].0,
                            );
                        assert(ops[p] is Register && ops[j] is Register);
                    } else if k2 == identity {
                        assert(prev.contains_key(k1));
                        let p = choose|p: int|
                            0 <= p < j && #[trigger] ops[p] == GcOp::Register(
                                ops[p]->Register_0,
                                prev[k1].0,
                            );
                        assert(ops[p] is Register && ops[j] is Register);
                    } else {
                        assert(prev.contains_key(k1) && prev.contains_key(k2));
                    }
                },
                _ => {
                    assert(prev.contains_key(k1) && prev.contains_key(k2));
                },
            }
        }
        assert forall|i: int, key: usize|
            0 <= i < k && #[trigger] st.contains_key(key) implies !#[trigger] cleanups_called_at(
            ops,
            i,
        ).contains(st[key].0) by {
            let v = st[key].0;
            let fresh = match op {
                GcOp::Register(identity, f) => key == identity,
                _ => false,
            };
            if fresh {
                if cleanups_called_at(ops, i).contains(v) {
                    lemma_called_were_registered(ops, i, v);
                    let p = choose|p: int|
                        0 <= p < i && #[trigger] ops[p] == GcOp::Register(ops[p]->Register_0, v);
                    assert(ops[p] is Register && ops[j] is Register);
                }
            } else {
                assert(prev.contains_key(key));
                assert(v == prev[key].0);
                if i == j && cleanups_called_at(ops, i).contains(v) {
                    assert(op is Cycle);
                    let k2 = choose|k2: usize| #[trigger] doomed(prev).contains(k2) && prev[k2].0 == v;
                    assert(prev.contains_key(k2));
                    assert(survivors(prev).contains_key(key));
                }
            }
        }
    }
}

/// Each registered cleanup is called at most once over any sequence of
/// calls: a cleanup that one cycle calls is called by no other call, and it
/// was registered before. Within a cycle no two identities share a cleanup.
/// (Registrations are taken to hand over distinct cleanups, as moving a
/// `FnOnce` into the storage does.)
pub proof fn lemma_cleanup_called_at_most_once<F>(ops: Seq<GcOp<F>>, i: int, j: int)
    requires
        distinct_registrations(ops),
        0 <= i < j < ops.len(),
    ensures
        cleanups_called_at(ops, i).disjoint(cleanups_called_at(ops, j)),
        forall|f: F| #[trigger] cleanups_called_at(ops, j).contains(f) ==> registered_before(ops, j, f),
        ({
            let before = gc_run(ops.take(j));
            forall|k1: usize, k2: usize|
                #[trigger] doomed(before).contains(k1) && #[trigger] doomed(before).contains(k2)
                    && k1 != k2 ==> before[k1].0 != before[k2].0
        }),
{
    lemma_gc_history(ops, j);
    let before = gc_run(ops.take(j));
    assert forall|f: F| #[trigger] cleanups_called_at(ops, j).contains(f) implies !cleanups_called_at(
        ops,
        i,
    ).contains(f) && registered_before(ops, j, f) by {
        let k = choose|k: usize| #[trigger] doomed(before).contains(k) && before[k].0 == f;
        assert(before.contains_key(k));
    }
    assert forall|k1: usize, k2: usize|
        #[trigger] doomed(before).contains(k1) && #[trigger] doomed(before).contains(k2) && k1
            != k2 implies before[k1].0 != before[k2].0 by {
        assert(before.contains_key(k1) && before.contains_key(k2));
    }
}

} // verus!
