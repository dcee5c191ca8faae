use rust_ui_core::view::resources::{ResourceStack, Resources};

fn lookup(r: &mut Resources<&'static str>, key: u64) -> Option<&'static str> {
    let child = ResourceStack::Borrow(r);
    child.get_resource(key).copied()
}

#[test]
fn empty_stack_has_no_resource() {
    let s: ResourceStack<'_, u32> = ResourceStack::default();
    assert_eq!(s.get_resource(1), None);
}

#[test]
fn amend_with_sets_resource_during_call_and_removes_it_after() {
    let mut s: ResourceStack<'_, &'static str> = ResourceStack::default();
    let seen = s.amend_with(1, "bold", |r| lookup(r, 1));
    assert_eq!(seen, Some("bold"));
    assert_eq!(s.get_resource(1), None);
}

#[test]
fn amend_with_restores_previous_resource() {
    let mut s: ResourceStack<'_, &'static str> = ResourceStack::default();
    s.amend_with(1, "outer", |r| {
        let mut inner = ResourceStack::Borrow(r);
        let seen = inner.amend_with(1, "inner", |r2| lookup(r2, 1));
        assert_eq!(seen, Some("inner"));
        assert_eq!(inner.get_resource(1), Some(&"outer"));
    });
    assert_eq!(s.get_resource(1), None);
}

#[test]
fn amend_with_keeps_other_kinds_and_returns_result() {
    let mut base: Resources<&'static str> = Resources::default();
    {
        let mut s = ResourceStack::Borrow(&mut base);
        s.amend_with(2, "red", |_| ());
        let n: i32 = s.amend_with(3, "left", |r| {
            assert_eq!(lookup(r, 3), Some("left"));
            assert_eq!(lookup(r, 2), None);
            17
        });
        assert_eq!(n, 17);
    }
    let s = ResourceStack::Borrow(&mut base);
    assert_eq!(s.get_resource(2), None);
    assert_eq!(s.get_resource(3), None);
}

#[test]
fn changes_to_other_kinds_inside_amend_persist() {
    let mut s: ResourceStack<'_, &'static str> = ResourceStack::default();
    s.amend_with(1, "a", |r| {
        let mut child = ResourceStack::Borrow(r);
        // a nested amendment is undone, but the closure could also leave changes
        child.amend_with(2, "b", |_| ());
    });
    assert_eq!(s.get_resource(1), None);
    assert_eq!(s.get_resource(2), None);
}

#[test]
fn clone_of_borrowed_stack_owns_a_copy() {
    let mut base: Resources<u32> = Resources::default();
    let mut s = ResourceStack::Borrow(&mut base);
    s.amend_with(4, 40, |r| {
        let copy = ResourceStack::Borrow(r).clone();
        assert!(matches!(copy, ResourceStack::Owned(_)));
        assert_eq!(copy.get_resource(4), Some(&40));
    });
    assert_eq!(s.get_resource(4), None);
    let owned: ResourceStack<'_, u32> = ResourceStack::Owned(s.as_ref().clone());
    assert_eq!(owned.get_resource(4), None);
}
