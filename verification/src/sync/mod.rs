//! The synchronous registry: handlers are closures `Fn(&E)` that the caller
//! of a notification runs inline, in dispatch order.

use std::sync::Arc;
use vstd::prelude::*;

use crate::handler_id::{append_decimal, HandlerId};
use crate::panic::PanicCallbackHolder;
use crate::store::HandlerStore;
use crate::table::{update_applied, HandlerTable, TableUpdate};

verus! {

/// A handler of events of type `E`: a closure, boxed by the caller, as in
/// `Handler(Box::new(|event: &E| ...))`. The library stores and orders
/// handlers; dispatching an event runs them.
#[verifier::external_body]
#[verifier::reject_recursive_types(E)]
pub struct Handler<E>(pub Box<dyn Fn(&E) + Send + Sync + 'static>);

/// Synchronous event registry.
///
/// Handlers are kept in a table ordered by descending priority, handlers of
/// equal priority in registration order; every change replaces the table as
/// a whole, so a notification walks one consistent snapshot.
#[verifier::reject_recursive_types(E)]
pub struct SyncRegistry<E: Send + Sync + 'static> {
    store: HandlerStore<Handler<E>>,
}

impl<E: Send + Sync + 'static> SyncRegistry<E> {
    /// An empty registry.
    pub fn new() -> Self {
        SyncRegistry { store: HandlerStore::new() }
    }

    /// An empty registry with room for `capacity` handlers.
    pub fn with_capacity(capacity: usize) -> Self {
        SyncRegistry { store: HandlerStore::with_capacity(capacity) }
    }

    /// Registers `handler` at the default priority `0`.
    pub fn register(&self, handler: Handler<E>) -> (id: HandlerId)
        ensures
            1 <= id@,
            exists|previous: HandlerTable<Handler<E>>, installed: HandlerTable<Handler<E>>, stored: Arc<Handler<E>>|
                #[trigger] update_applied(
                    previous,
                    (TableUpdate::Register { priority: 0, handler: stored }),
                    installed,
                ) && *stored == handler && previous.well_formed() && id@ == previous.next_id(),
    {
        self.register_with_priority(0, handler)
    }

    /// Registers `handler` with `priority` and returns its id, the id the
    /// table it went into stood at: handlers of higher priority fire first,
    /// handlers of equal priority in registration order.
    pub fn register_with_priority(&self, priority: i32, handler: Handler<E>) -> (id: HandlerId)
        ensures
            1 <= id@,
            exists|previous: HandlerTable<Handler<E>>, installed: HandlerTable<Handler<E>>, stored: Arc<Handler<E>>|
                #[trigger] update_applied(
                    previous,
                    (TableUpdate::Register { priority, handler: stored }),
                    installed,
                ) && *stored == handler && previous.well_formed() && id@ == previous.next_id(),
    {
        let stored = Arc::new(handler);
        self.store.register(priority, stored)
    }

    /// Unregisters the handler with `id`; returns whether the table it was
    /// taken out of had one.
    pub fn unregister(&self, id: HandlerId) -> (removed: bool)
        ensures
            removed ==> 1 <= id@,
            exists|previous: HandlerTable<Handler<E>>, installed: HandlerTable<Handler<E>>|
                #[trigger] update_applied(previous, TableUpdate::Unregister(id), installed)
                    && previous.well_formed() && removed == crate::table::has_id(previous@, id),
    {
        self.store.unregister(id)
    }

    /// Removes every handler; ids issued later stay unique.
    pub fn clear(&self)
        ensures
            exists|previous: HandlerTable<Handler<E>>, installed: HandlerTable<Handler<E>>|
                #[trigger] update_applied(previous, TableUpdate::Clear, installed)
                    && previous.well_formed(),
    {
        self.store.clear()
    }

    /// The number of registered handlers.
    pub fn handler_count(&self) -> usize {
        self.store.handler_count()
    }

    /// `true` when no handler is registered.
    pub fn is_empty(&self) -> bool {
        self.store.is_empty()
    }

    /// `true` when a handler with `id` is registered.
    pub fn contains(&self, id: HandlerId) -> bool {
        self.store.contains(id)
    }

    /// Installs `callback` to be told about handler panics, replacing any
    /// previous one.
    pub fn on_panic(&self, callback: PanicCallbackHolder) {
        self.store.set_panic_callback(Some(callback))
    }

    /// Removes the panic callback.
    pub fn clear_panic_callback(&self) {
        self.store.set_panic_callback(None)
    }

    /// The handlers in dispatch order, as one consistent snapshot.
    pub fn snapshot(&self) -> (table: Arc<HandlerTable<Handler<E>>>)
        ensures
            table.well_formed(),
    {
        self.store.snapshot()
    }

    /// The panic callback installed at the moment of the call.
    pub fn panic_callback(&self) -> Arc<Option<PanicCallbackHolder>> {
        self.store.panic_callback()
    }

    /// A description for diagnostics:
    /// `SyncRegistry { handler_count: N, has_panic_callback: B, .. }`.
    pub fn debug_string(&self) -> (text: String)
        ensures
            exists|count: nat, has_callback: bool|
                text@ == #[trigger] registry_description_text(count, has_callback),
    {
        let count = self.store.handler_count();
        let has_callback = self.store.panic_callback().is_some();
        registry_description(count, has_callback)
    }
}

/// The text of a registry's description.
pub open spec fn registry_description_text(count: nat, has_callback: bool) -> Seq<char> {
    "SyncRegistry { handler_count: "@ + crate::handler_id::decimal_text(count) + ", has_panic_callback: "@
        + (if has_callback {
        "true"@
    } else {
        "false"@
    }) + ", .. }"@
}

/// `SyncRegistry { handler_count: N, has_panic_callback: B, .. }` for the
/// given count and callback presence.
pub fn registry_description(count: usize, has_callback: bool) -> (text: String)
    ensures
        text@ == registry_description_text(count as nat, has_callback),
{
    let mut text = String::new();
    text.append("SyncRegistry { handler_count: ");
    append_decimal(&mut text, count as u64);
    text.append(", has_panic_callback: ");
    if has_callback {
        text.append("true");
    } else {
        text.append("false");
    }
    text.append(", .. }");
    text
}

impl<E: Send + Sync + 'static> Default for SyncRegistry<E> {
    fn default() -> Self {
        Self::new()
    }
}

} // verus!
