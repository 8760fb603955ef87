//! Shared, atomically replaceable state, held in `arc_swap` cells.
//!
//! The state in these cells is replaced by other threads at any moment, so
//! nothing about what a cell holds can be promised across calls; what the
//! library knows of a value it reads comes from that value's own type (see
//! [`HandlerTable`]).

use std::sync::Arc;
use arc_swap::ArcSwap;
use vstd::prelude::*;

use crate::table::{update_applied, HandlerTable, TableUpdate};

verus! {

/// A cell holding an `Arc<T>` that any thread may read or replace
/// (an `arc_swap::ArcSwap<T>`).
#[verifier::external_body]
#[verifier::reject_recursive_types(T)]
pub struct SharedCell<T> {
    cell: ArcSwap<T>,
}

/// `arc_swap::ArcSwap::from_pointee`: a cell that holds `value`.
#[verifier::external_body]
pub(crate) fn cell_new<T>(value: T) -> SharedCell<T> {
    SharedCell { cell: ArcSwap::from_pointee(value) }
}

/// `arc_swap::ArcSwapAny::load_full`: the value the cell holds at the moment
/// of the call.
#[verifier::external_body]
pub(crate) fn cell_load<T>(cell: &SharedCell<T>) -> Arc<T> {
    cell.cell.load_full()
}

/// `arc_swap::ArcSwapAny::store`: replaces the value the cell holds.
#[verifier::external_body]
pub(crate) fn cell_store<T>(cell: &SharedCell<T>, value: Arc<T>) {
    cell.cell.store(value)
}

/// `arc_swap::ArcSwapAny::rcu`: replaces the table `t` that the cell holds by
/// `HandlerTable::updated(t, update)`, retrying while other threads replace
/// it in between, and returns `t` together with the table put in its place.
/// `rcu` returns exactly when the table its closure was last given was
/// still in the cell, so the pair is one application of `update` (the
/// closure runs at least once, so a table was put in place). Which `t`
/// that is depends on the other threads.
#[verifier::external_body]
pub(crate) fn cell_update<T>(
    cell: &SharedCell<HandlerTable<T>>,
    update: &TableUpdate<T>,
) -> (tables: (Arc<HandlerTable<T>>, Option<Arc<HandlerTable<T>>>))
    ensures
        tables.1 is Some,
        update_applied(*tables.0, *update, *tables.1.unwrap()),
{
    let mut installed: Option<Arc<HandlerTable<T>>> = None;
    let previous = cell.cell.rcu(
        |current| HandlerTable::updated_recording(current, update, &mut installed),
    );
    (previous, installed)
}

} // verus!
