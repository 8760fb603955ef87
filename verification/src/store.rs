//! The state a registry shares between threads: its handler table and its
//! panic callback, each in an atomically replaceable cell.
//!
//! Every change to the table goes through [`HandlerTable::updated`], whose
//! contract states exactly what the change does to the table it is applied
//! to. Which table that is depends on what other threads did before, so the
//! methods here state only what holds whatever it was.

use std::sync::Arc;
use vstd::prelude::*;

use crate::cell::{cell_load, cell_new, cell_store, cell_update, SharedCell};
use crate::handler_id::HandlerId;
use crate::panic::PanicCallbackHolder;
use crate::table::{has_id, ids_issued_before, update_applied, HandlerTable, TableUpdate};

verus! {

/// A registry's shared state: handlers of type `T` and an optional panic
/// callback.
#[verifier::reject_recursive_types(T)]
pub struct HandlerStore<T> {
    handlers: SharedCell<HandlerTable<T>>,
    panic_callback: SharedCell<Option<PanicCallbackHolder>>,
}

impl<T> HandlerStore<T> {
    /// A store around `table`, with no panic callback.
    fn with_table(table: HandlerTable<T>) -> Self {
        HandlerStore { handlers: cell_new(table), panic_callback: cell_new(None) }
    }

    /// An empty store; its first id will be `1`.
    pub fn new() -> Self {
        Self::with_table(HandlerTable::new())
    }

    /// An empty store whose table has room for `capacity` handlers.
    pub fn with_capacity(capacity: usize) -> Self {
        Self::with_table(HandlerTable::with_capacity(capacity))
    }

    /// The current table: one consistent snapshot, in dispatch order. Which
    /// table that is depends on what other threads did before.
    pub fn snapshot(&self) -> (table: Arc<HandlerTable<T>>)
        ensures
            table.well_formed(),
    {
        let table = cell_load(&self.handlers);
        proof {
            use_type_invariant(&*table);
        }
        table
    }

    /// Applies `update` to the table in the cell, copy-on-write, and returns
    /// the table it was applied to and the table put in its place.
    fn apply(&self, update: &TableUpdate<T>) -> (tables: (Arc<HandlerTable<T>>, Arc<HandlerTable<T>>))
        ensures
            tables.0.well_formed(),
            update_applied(*tables.0, *update, *tables.1),
    {
        let (previous, installed) = cell_update(&self.handlers, update);
        proof {
            use_type_invariant(&*previous);
        }
        (previous, installed.unwrap())
    }

    /// Registers `handler` with `priority` and returns its id: the id the
    /// table it was registered into stood at. That id is never `0`. Once the
    /// id counter has reached `u64::MAX` nothing is registered and the id
    /// `u64::MAX`, which no handler carries, is returned.
    pub fn register(&self, priority: i32, handler: Arc<T>) -> (id: HandlerId)
        ensures
            1 <= id@,
            exists|previous: HandlerTable<T>, installed: HandlerTable<T>|
                #[trigger] update_applied(
                    previous,
                    (TableUpdate::Register { priority, handler }),
                    installed,
                ) && previous.well_formed() && id@ == previous.next_id(),
    {
        let update = TableUpdate::Register { priority, handler };
        let (previous, installed) = self.apply(&update);
        let id = previous.upcoming_id();
        assert(update_applied(*previous, update, *installed));
        id
    }

    /// Takes out the handler registered under `id`; returns whether the
    /// table it was taken out of had one.
    pub fn unregister(&self, id: HandlerId) -> (removed: bool)
        ensures
            removed ==> 1 <= id@,
            exists|previous: HandlerTable<T>, installed: HandlerTable<T>|
                #[trigger] update_applied(previous, TableUpdate::Unregister(id), installed)
                    && previous.well_formed() && removed == has_id(previous@, id),
    {
        let update: TableUpdate<T> = TableUpdate::Unregister(id);
        let (previous, installed) = self.apply(&update);
        let removed = previous.contains(id);
        proof {
            if removed {
                let k = choose|k: int| 0 <= k < previous@.len() && #[trigger] previous@[k].id == id;
                assert(ids_issued_before(previous@, previous.next_id()));
                assert(1 <= previous@[k].id@);
            }
            assert(update_applied(*previous, update, *installed));
        }
        removed
    }

    /// Takes out every handler; the id counter keeps its value, so ids issued
    /// later stay unique.
    pub fn clear(&self)
        ensures
            exists|previous: HandlerTable<T>, installed: HandlerTable<T>|
                #[trigger] update_applied(previous, TableUpdate::Clear, installed)
                    && previous.well_formed(),
    {
        let update: TableUpdate<T> = TableUpdate::Clear;
        let (previous, installed) = self.apply(&update);
        assert(update_applied(*previous, update, *installed));
    }

    /// The number of registered handlers.
    pub fn handler_count(&self) -> usize {
        self.snapshot().len()
    }

    /// `true` when no handler is registered.
    pub fn is_empty(&self) -> bool {
        self.snapshot().is_empty()
    }

    /// `true` when a handler is registered under `id`.
    pub fn contains(&self, id: HandlerId) -> bool {
        self.snapshot().contains(id)
    }

    /// Installs `callback` (or removes the callback, for `None`).
    pub fn set_panic_callback(&self, callback: Option<PanicCallbackHolder>) {
        cell_store(&self.panic_callback, Arc::new(callback))
    }

    /// The panic callback installed at the moment of the call.
    pub fn panic_callback(&self) -> Arc<Option<PanicCallbackHolder>> {
        cell_load(&self.panic_callback)
    }
}

} // verus!
