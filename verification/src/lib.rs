//! An in-process event registry.
//!
//! Handlers are kept in a [`table::HandlerTable`] ordered by descending
//! priority, handlers of equal priority in registration order. A registry
//! publishes the table as one immutable snapshot at a time and replaces it
//! copy-on-write, so that readers always walk one consistent snapshot while
//! writers register and unregister concurrently.
//!
//! The ordering and bookkeeping rules of the table (where a registration
//! goes, what unregistering and clearing leave behind, that ids are unique)
//! are the contracts of [`table::HandlerTable`] and the properties in
//! [`laws`].

use vstd::prelude::*;

pub mod cell;
pub mod dispatch;
pub mod handler_id;
pub mod join;
pub mod laws;
pub mod panic;
pub mod store;
pub mod sync;
pub mod table;

pub use handler_id::{HandlerId, HandlerIdGenerator};
pub use panic::{PanicInfo, PanicPayload};
pub use sync::{Handler, SyncRegistry};

verus! {

/// Version string of this crate.
pub const VERSION: &'static str = "0.9.0";

} // verus!
