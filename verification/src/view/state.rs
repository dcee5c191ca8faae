//! State and bindings of views. A state lives in a shared cell; a binding
//! lets a child view change the state of an ancestor, after which the
//! ancestor is scheduled to rerender.
use crate::view::mutable::MutableViewRerender;
use crate::view::shared::{cell_set, ref_cell_try_borrow, ref_cell_try_borrow_mut, ref_mut_target};
use std::cell::{BorrowError, BorrowMutError, Cell, Ref, RefCell, RefMut};
use std::collections::BTreeMap;
use std::rc::Rc;
use vstd::prelude::*;
use vstd::std_specs::iter::IteratorSpec;

verus! {

/// The views to rerender after bindings were mutated, each once, by view
/// identity.
pub struct BindingQueue<'a, V> {
    views_to_update: BTreeMap<usize, &'a V>,
}

impl<'a, V> BindingQueue<'a, V> {
    /// The scheduled views, by identity.
    pub closed spec fn scheduled(&self) -> Map<usize, &'a V> {
        self.views_to_update@
    }

    /// Schedule `view`, whose identity is `view_id`, for a rerender, if no
    /// view with that identity is scheduled yet; a scheduled view keeps its
    /// entry.
    pub fn add(&mut self, view_id: usize, view: &'a V)
        ensures
            final(self).scheduled() == scheduled_after_add(old(self).scheduled(), view_id, view),
    {
        broadcast use vstd::std_specs::btree::group_btree_axioms;
        if !self.views_to_update.contains_key(&view_id) {
            self.views_to_update.insert(view_id, view);
        }
    }
}

impl<'a, V: MutableViewRerender> BindingQueue<'a, V> {
    /// Rerender every scheduled view once, in ascending order of identity.
    /// The queue keeps its views.
    pub fn execute(&self)
        ensures
            forall|k: usize|
                #[trigger] self.scheduled().contains_key(k) ==> call_ensures(
                    V::rerender,
                    (self.scheduled()[k],),
                    (),
                ),
    {
        broadcast use vstd::std_specs::btree::group_btree_axioms;
        let ghost m = self.scheduled();
        let ghost full = vstd::std_specs::btree::spec_btree_map_iter(&self.views_to_update).remaining();
        for entry in it: self.views_to_update.iter()
            invariant
                it.seq() == full,
                m == self.scheduled(),
                forall|j: int|
                    0 <= j < it.index() ==> call_ensures(V::rerender, (*it.seq()[j].1,), ()),
        {
            let (_, view) = entry;
            V::rerender(*view);
        }
        assert forall|k: usize| #[trigger] m.contains_key(k) implies call_ensures(
            V::rerender,
            (m[k],),
            (),
        ) by {
            assert(full.contains((&k, &m[k])));
            let j: int = choose|j: int| 0 <= j < full.len() && full[j] == (&k, &m[k]);
        }
    }
}

impl<'a, V> Default for BindingQueue<'a, V> {
    /// An empty queue.
    fn default() -> (q: Self)
        ensures
            q.scheduled() == Map::<usize, &'a V>::empty(),
    {
        BindingQueue { views_to_update: BTreeMap::new() }
    }
}

/// The scheduled views after `view` is added under `view_id`: unchanged if
/// that identity is scheduled already.
pub open spec fn scheduled_after_add<V>(m: Map<usize, V>, view_id: usize, view: V) -> Map<usize, V> {
    if m.contains_key(view_id) {
        m
    } else {
        m.insert(view_id, view)
    }
}

/// Scheduling is idempotent: a view is scheduled once however often it is
/// added, and the first entry for an identity is the one that stays.
pub proof fn lemma_schedule_once<V>(m: Map<usize, V>, view_id: usize, view: V, other: V)
    ensures
        scheduled_after_add(m, view_id, view).dom() == m.dom().insert(view_id),
        scheduled_after_add(scheduled_after_add(m, view_id, view), view_id, other)
            == scheduled_after_add(m, view_id, view),
        m.contains_key(view_id) ==> scheduled_after_add(m, view_id, view) == m,
        !m.contains_key(view_id) ==> scheduled_after_add(m, view_id, view)[view_id] == view,
{
    assert(scheduled_after_add(m, view_id, view).dom() =~= m.dom().insert(view_id));
}

/// Adding a view schedules its identity and leaves every other identity's
/// entry as it was; the identity's entry is the view just added if it was
/// not scheduled, and the earlier entry if it was.
pub proof fn lemma_add_is_local<V>(m: Map<usize, V>, view_id: usize, view: V, other: usize)
    ensures
        scheduled_after_add(m, view_id, view).contains_key(view_id),
        scheduled_after_add(m, view_id, view)[view_id] == (if m.contains_key(view_id) {
            m[view_id]
        } else {
            view
        }),
        other != view_id ==> scheduled_after_add(m, view_id, view).get(other) == m.get(other),
{
}

/// The state of a view, as its `view!` body sees it: it can be read, and
/// turned into a mutable [`State`] or a [`PartialBinding`], but never
/// changed directly, so that rendering cannot trigger a rerender.
#[verifier::reject_recursive_types(T)]
pub struct PartialState<T> {
    data: Rc<RefCell<T>>,
}

/// Mutable state, as the callback blocks of a view see it. Changing it
/// raises the view's change signal.
#[verifier::reject_recursive_types(T)]
pub struct State<'a, T> {
    data: Rc<RefCell<T>>,
    signal: &'a Cell<bool>,
}

/// A binding to the state of another view, as the `view!` body sees it.
/// `view` is the view that owns the state, and `view_id` its identity.
#[verifier::reject_recursive_types(T)]
pub struct PartialBinding<T, V> {
    data: Rc<RefCell<T>>,
    updater: (usize, Rc<V>),
}

/// A mutable binding, as the callback blocks of a view see it. Changing it
/// schedules the owning view in the queue.
#[verifier::reject_recursive_types(T)]
#[verifier::reject_recursive_types(V)]
pub struct Binding<'a, T, V> {
    data: &'a Rc<RefCell<T>>,
    view_id: usize,
    view: &'a V,
    queue: &'a RefCell<BindingQueue<'a, V>>,
}

impl<T> PartialState<T> {
    /// The shared cell that holds the state.
    pub closed spec fn cell(&self) -> Rc<RefCell<T>> {
        self.data
    }

    /// A reference to the value of the state, or an error while it is
    /// mutably borrowed.
    pub fn get(&self) -> Result<Ref<'_, T>, BorrowError> {
        ref_cell_try_borrow(&*self.data)
    }

    /// The mutable form of this state. `s` is the signal that tells that a
    /// state of the current view has changed; whoever gave it must check it
    /// and rerender the view.
    pub fn as_state<'a>(&self, s: &'a Cell<bool>) -> (st: State<'a, T>)
        ensures
            st.cell() == self.cell(),
            st.signal() == s,
    {
        State { data: self.data.clone(), signal: s }
    }

    /// A binding to this state, owned by `view` whose identity is `view_id`.
    pub fn as_binding<V: MutableViewRerender>(&self, view_id: usize, view: V) -> (b: PartialBinding<T, V>)
        ensures
            b.cell() == self.cell(),
            b.view_id() == view_id,
            b.view() == view,
    {
        PartialBinding { data: self.data.clone(), updater: (view_id, Rc::new(view)) }
    }
}

impl<'a, T> State<'a, T> {
    /// The shared cell that holds the state.
    pub closed spec fn cell(&self) -> Rc<RefCell<T>> {
        self.data
    }

    /// The change signal of the view.
    pub closed spec fn signal(&self) -> &'a Cell<bool> {
        self.signal
    }

    /// A reference to the value of the state, or an error while it is
    /// mutably borrowed.
    pub fn get(&self) -> Result<Ref<'_, T>, BorrowError> {
        ref_cell_try_borrow(&*self.data)
    }

    /// Raise the signal, then a mutable reference to the value of the state,
    /// or an error while it is borrowed.
    pub fn get_mut(&mut self) -> Result<RefMut<'_, T>, BorrowMutError> {
        cell_set(self.signal, true);
        ref_cell_try_borrow_mut(&*self.data)
    }
}

impl<T, V> PartialBinding<T, V> {
    /// The shared cell that holds the bound state.
    pub closed spec fn cell(&self) -> Rc<RefCell<T>> {
        self.data
    }

    /// The identity of the view that owns the state.
    pub closed spec fn view_id(&self) -> usize {
        self.updater.0
    }

    /// The view that owns the state.
    pub closed spec fn view(&self) -> V {
        *self.updater.1
    }

    /// A reference to the value of the binding, or an error while it is
    /// mutably borrowed.
    pub fn get(&self) -> Result<Ref<'_, T>, BorrowError> {
        ref_cell_try_borrow(&*self.data)
    }

    /// The mutable form of this binding; its changes are scheduled in
    /// `queue`, which has to be executed by hand.
    pub fn as_binding<'a>(&'a self, queue: &'a RefCell<BindingQueue<'a, V>>) -> (b: Binding<
        'a,
        T,
        V,
    >)
        ensures
            b.cell() == self.cell(),
            b.view_id() == self.view_id(),
            *b.view() == self.view(),
            b.queue() == queue,
    {
        Binding { data: &self.data, view_id: self.updater.0, view: &*self.updater.1, queue }
    }
}

impl<T, V: MutableViewRerender> PartialBinding<T, V> {
    /// Put `value` in the bound state and rerender the owning view; while
    /// the state is borrowed, nothing happens and the error is returned.
    pub(crate) fn update_value(&self, value: T) -> (r: Result<(), BorrowMutError>)
        ensures
            r is Ok ==> call_ensures(V::rerender, (&self.view(),), ()),
    {
        match ref_cell_try_borrow_mut(&*self.data) {
            Ok(mut guard) => {
                let slot = ref_mut_target(&mut guard);
                *slot = value;
            },
            Err(e) => {
                return Err(e);
            },
        }
        V::rerender(&*self.updater.1);
        Ok(())
    }
}

impl<T, V> Clone for PartialBinding<T, V> {
    /// A binding to the same state and view.
    fn clone(&self) -> (b: Self)
        ensures
            b.cell() == self.cell(),
            b.view_id() == self.view_id(),
            b.view() == self.view(),
    {
        PartialBinding { data: self.data.clone(), updater: (self.updater.0, self.updater.1.clone()) }
    }
}

impl<'a, T, V> Binding<'a, T, V> {
    /// The shared cell that holds the bound state.
    pub closed spec fn cell(&self) -> Rc<RefCell<T>> {
        *self.data
    }

    /// The identity of the view that owns the state.
    pub closed spec fn view_id(&self) -> usize {
        self.view_id
    }

    /// The view that owns the state.
    pub closed spec fn view(&self) -> &'a V {
        self.view
    }

    /// The queue in which changes are scheduled.
    pub closed spec fn queue(&self) -> &'a RefCell<BindingQueue<'a, V>> {
        self.queue
    }

    /// A reference to the value of the binding, or an error while it is
    /// mutably borrowed.
    pub fn get(&self) -> Result<Ref<'_, T>, BorrowError> {
        ref_cell_try_borrow(&**self.data)
    }

    /// Schedule the owning view in the queue, then a mutable reference to
    /// the value of the binding. While the queue is borrowed nothing is
    /// scheduled and its error is returned; while the value is borrowed its
    /// error is returned.
    ///
    /// On success the contract states that `BindingQueue::add` ran with the
    /// owning view; the queue it ran on is the one taken out of the
    /// binding's cell, but since that cell is opaque, that it was this
    /// binding's queue is not stated.
    pub fn get_mut(&mut self) -> (r: Result<RefMut<'_, T>, BorrowMutError>)
        ensures
            r is Ok ==> exists|q: &mut BindingQueue<'a, V>|
                call_ensures(
                    BindingQueue::<'a, V>::add,
                    (q, old(self).view_id(), old(self).view()),
                    (),
                ),
    {
        match ref_cell_try_borrow_mut(self.queue) {
            Ok(mut guard) => {
                let queue = ref_mut_target(&mut guard);
                BindingQueue::add(queue, self.view_id, self.view);
                assert(self.view_id == old(self).view_id() && self.view == old(self).view());
                assert(exists|q: &mut BindingQueue<'a, V>|
                    call_ensures(
                        BindingQueue::<'a, V>::add,
                        (q, old(self).view_id(), old(self).view()),
                        (),
                    ));
            },
            Err(e) => {
                return Err(e);
            },
        }
        ref_cell_try_borrow_mut(&**self.data)
    }
}

impl<T> From<T> for PartialState<T> {
    /// A state held in a new cell.
    fn from(value: T) -> Self {
        PartialState { data: Rc::new(crate::view::shared::ref_cell_new(value)) }
    }
}

/// A new cell is opaque to the verifier, so `from` promises nothing of the
/// state it makes.
impl<T> vstd::std_specs::convert::FromSpecImpl<T> for PartialState<T> {
    open spec fn obeys_from_spec() -> bool {
        false
    }

    open spec fn from_spec(v: T) -> Self {
        arbitrary()
    }
}

} // verus!
