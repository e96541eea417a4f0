//! The once-written cell of the `once_cell` crate, which holds the profiler's
//! stores from the moment they are built.

use crate::profiler::YingState;
use once_cell::sync::OnceCell;
use vstd::prelude::*;

verus! {

/// `once_cell::sync::OnceCell`: a cell that is empty or holds one value.
#[verifier::external_type_specification]
#[verifier::external_body]
#[verifier::reject_recursive_types(T)]
pub struct ExOnceCell<T>(OnceCell<T>);

/// What a cell holds: nothing, or the stores.
pub uninterp spec fn cell_value(cell: OnceCell<YingState>) -> Option<YingState>;

/// `OnceCell::new`: an empty cell.
#[verifier::external_body]
pub(crate) fn cell_new() -> (cell: OnceCell<YingState>)
    ensures
        cell_value(cell) is None,
{
    OnceCell::new()
}

/// `OnceCell::get`: what the cell holds, if anything.
#[verifier::external_body]
pub(crate) fn cell_get(cell: &OnceCell<YingState>) -> (found: Option<&YingState>)
    ensures
        found is Some <==> cell_value(*cell) is Some,
        found matches Some(state) ==> cell_value(*cell) == Some(*state),
{
    cell.get()
}

/// `OnceCell::get_mut`: what the cell holds, if anything, open to change.
/// The cell holds afterwards what the caller has made of it.
#[verifier::external_body]
pub(crate) fn cell_get_mut(cell: &mut OnceCell<YingState>) -> (found: Option<&mut YingState>)
    ensures
        match cell_value(*old(cell)) {
            None => cell_value(*final(cell)) is None && found is None,
            Some(state) => found is Some && *found.unwrap() == state && cell_value(*final(cell))
                == Some(*final(found.unwrap())),
        },
{
    cell.get_mut()
}

/// `OnceCell::set` on an empty cell: the cell holds `state`.
#[verifier::external_body]
pub(crate) fn cell_set(cell: &mut OnceCell<YingState>, state: YingState)
    requires
        cell_value(*old(cell)) is None,
    ensures
        cell_value(*final(cell)) == Some(state),
{
    let _ = cell.set(state);
}

} // verus!
