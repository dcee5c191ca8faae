//! The shared, interior-mutable cells of the standard library that hold view
//! state. Their contents can change through any handle to the same cell, so
//! the wrappers below promise nothing of what a read gives back.
use std::cell::{BorrowError, BorrowMutError, Cell, Ref, RefCell, RefMut};
use vstd::prelude::*;

verus! {

/// `std::cell::RefCell`, opaque to the verifier.
#[verifier::external_type_specification]
#[verifier::external_body]
#[verifier::reject_recursive_types(T)]
pub struct ExRefCell<T: ?Sized>(RefCell<T>);

/// `std::cell::Ref`, opaque to the verifier.
#[verifier::external_type_specification]
#[verifier::external_body]
#[verifier::reject_recursive_types(T)]
pub struct ExRef<'b, T: ?Sized>(Ref<'b, T>);

/// `std::cell::RefMut`, opaque to the verifier.
#[verifier::external_type_specification]
#[verifier::external_body]
#[verifier::reject_recursive_types(T)]
pub struct ExRefMut<'b, T: ?Sized + 'b>(RefMut<'b, T>);

/// `std::cell::Cell`, opaque to the verifier.
#[verifier::external_type_specification]
#[verifier::external_body]
#[verifier::reject_recursive_types(T)]
pub struct ExCell<T: ?Sized>(Cell<T>);

/// `std::cell::BorrowError`, opaque to the verifier.
#[verifier::external_type_specification]
#[verifier::external_body]
pub struct ExBorrowError(BorrowError);

/// `std::cell::BorrowMutError`, opaque to the verifier.
#[verifier::external_type_specification]
#[verifier::external_body]
pub struct ExBorrowMutError(BorrowMutError);

/// Calls `RefCell::new`: a new cell holding `value`. The cell is opaque, so
/// nothing is stated of it.
#[verifier::external_body]
pub(crate) fn ref_cell_new<T>(value: T) -> RefCell<T> {
    RefCell::new(value)
}

/// Calls `RefCell::try_borrow`: a shared borrow of the cell's value, or an
/// error while the value is mutably borrowed. It never panics. Whether the
/// borrow succeeds depends on the borrows alive through every handle to the
/// cell, so nothing is stated of the result.
#[verifier::external_body]
pub(crate) fn ref_cell_try_borrow<T>(cell: &RefCell<T>) -> Result<Ref<'_, T>, BorrowError> {
    cell.try_borrow()
}

/// Calls `RefCell::try_borrow_mut`: a mutable borrow of the cell's value, or
/// an error while the value is borrowed. It never panics; nothing is stated
/// of the result, for the reason given at `ref_cell_try_borrow`.
#[verifier::external_body]
pub(crate) fn ref_cell_try_borrow_mut<T>(cell: &RefCell<T>) -> Result<RefMut<'_, T>, BorrowMutError> {
    cell.try_borrow_mut()
}

/// Calls `DerefMut::deref_mut` on a mutable borrow guard: the value it
/// guards. The value is held in a shared cell, so nothing is stated of it.
#[verifier::external_body]
pub(crate) fn ref_mut_target<'c, 'b, T>(guard: &'c mut RefMut<'b, T>) -> &'c mut T {
    &mut **guard
}

/// Calls `Cell::set`: stores `value` in the cell. The cell is shared, so no
/// later read is promised to see it.
#[verifier::external_body]
pub(crate) fn cell_set<T>(cell: &Cell<T>, value: T) {
    cell.set(value)
}

} // verus!
