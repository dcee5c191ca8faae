use rust_ui_core::view::mutable::MutableViewRerender;
use rust_ui_core::view::state::{BindingQueue, PartialState};
use std::cell::{Cell, RefCell};
use std::rc::Rc;

/// A view handle that records its rerenders.
struct Recorder {
    id: usize,
    log: Rc<RefCell<Vec<usize>>>,
}

impl MutableViewRerender for Recorder {
    fn rerender(&self) {
        self.log.borrow_mut().push(self.id);
    }
}

fn recorder(id: usize, log: &Rc<RefCell<Vec<usize>>>) -> Recorder {
    Recorder { id, log: log.clone() }
}

#[test]
fn queue_executes_each_view_once_in_order() {
    let log = Rc::new(RefCell::new(Vec::new()));
    let a = recorder(30, &log);
    let b = recorder(10, &log);
    let mut q = BindingQueue::default();
    q.add(30, &a);
    q.add(10, &b);
    q.add(30, &a);
    q.execute();
    assert_eq!(*log.borrow(), vec![10, 30]);
}

#[test]
fn empty_queue_rerenders_nothing() {
    let q: BindingQueue<'_, Recorder> = BindingQueue::default();
    q.execute();
}

#[test]
fn partial_state_reads_its_value() {
    let s = PartialState::from(5);
    assert_eq!(*s.get().unwrap(), 5);
}

#[test]
fn state_get_mut_raises_signal_and_writes_shared_value() {
    let partial = PartialState::from(String::from("a"));
    let signal = Cell::new(false);
    let mut st = partial.as_state(&signal);
    assert_eq!(*st.get().unwrap(), "a");
    assert!(!signal.get());
    st.get_mut().unwrap().push('b');
    assert!(signal.get());
    assert_eq!(*partial.get().unwrap(), "ab");
}

#[test]
fn binding_get_mut_schedules_owning_view() {
    let log = Rc::new(RefCell::new(Vec::new()));
    let partial = PartialState::from(1);
    let pb = partial.as_binding(7, recorder(7, &log));
    let queue = RefCell::new(BindingQueue::default());
    {
        let mut b = pb.as_binding(&queue);
        assert_eq!(*b.get().unwrap(), 1);
        *b.get_mut().unwrap() += 1;
        *b.get_mut().unwrap() += 1;
    }
    assert_eq!(*partial.get().unwrap(), 3);
    assert!(log.borrow().is_empty());
    queue.borrow().execute();
    assert_eq!(*log.borrow(), vec![7]);
}

#[test]
fn binding_get_does_not_schedule() {
    let log = Rc::new(RefCell::new(Vec::new()));
    let partial = PartialState::from(1);
    let pb = partial.as_binding(7, recorder(7, &log));
    let queue = RefCell::new(BindingQueue::default());
    {
        let b = pb.as_binding(&queue);
        assert_eq!(*b.get().unwrap(), 1);
    }
    queue.borrow().execute();
    assert!(log.borrow().is_empty());
}

#[test]
fn cloned_partial_binding_shares_state() {
    let log = Rc::new(RefCell::new(Vec::new()));
    let partial = PartialState::from(0);
    let pb = partial.as_binding(2, recorder(2, &log));
    let pb2 = pb.clone();
    let queue = RefCell::new(BindingQueue::default());
    {
        let mut b = pb2.as_binding(&queue);
        *b.get_mut().unwrap() = 9;
    }
    assert_eq!(*pb.get().unwrap(), 9);
    queue.borrow().execute();
    assert_eq!(*log.borrow(), vec![2]);
}

#[test]
fn queue_keeps_first_entry_of_a_view() {
    let log = Rc::new(RefCell::new(Vec::new()));
    let first = recorder(1, &log);
    let second = recorder(2, &log);
    let mut q = BindingQueue::default();
    q.add(5, &first);
    q.add(5, &second);
    q.execute();
    assert_eq!(*log.borrow(), vec![1]);
}

#[test]
fn execute_keeps_the_queue() {
    let log = Rc::new(RefCell::new(Vec::new()));
    let a = recorder(4, &log);
    let mut q = BindingQueue::default();
    q.add(4, &a);
    q.execute();
    q.execute();
    assert_eq!(*log.borrow(), vec![4, 4]);
}

#[test]
fn borrowed_state_reports_error_instead_of_panicking() {
    let partial = PartialState::from(1);
    let signal = Cell::new(false);
    let mut st = partial.as_state(&signal);
    let reader = partial.get().unwrap();
    assert!(st.get_mut().is_err());
    assert!(st.get().is_ok());
    drop(reader);
    assert!(st.get_mut().is_ok());
}

#[test]
fn binding_get_mut_with_borrowed_queue_schedules_nothing() {
    let log = Rc::new(RefCell::new(Vec::new()));
    let partial = PartialState::from(1);
    let pb = partial.as_binding(3, recorder(3, &log));
    let queue = RefCell::new(BindingQueue::default());
    {
        let mut b = pb.as_binding(&queue);
        let held = queue.borrow();
        assert!(b.get_mut().is_err());
        drop(held);
    }
    assert_eq!(*partial.get().unwrap(), 1);
    queue.borrow().execute();
    assert!(log.borrow().is_empty());
}

#[test]
fn binding_get_mut_with_borrowed_value_reports_error() {
    let log = Rc::new(RefCell::new(Vec::new()));
    let partial = PartialState::from(1);
    let pb = partial.as_binding(3, recorder(3, &log));
    let queue = RefCell::new(BindingQueue::default());
    let reader = partial.get().unwrap();
    {
        let mut b = pb.as_binding(&queue);
        assert!(b.get_mut().is_err());
    }
    drop(reader);
}
