# registry_io

An in-process event registry: handlers are registered with a priority,
unregistered by id or through an RAII guard, and run in descending priority
order (equal priorities in registration order) when an event is dispatched.

## Layout

- `src/` — the verified library.
  - `table.rs` — the priority-ordered handler table and its operations, with
    their contracts; the table's invariant (dispatch order, distinct ids,
    ids below the counter) is a type invariant.
  - `laws.rs` — properties across operations: placement of a registration,
    unregistering exactly one id, unregistering twice, unregistering what was
    just registered, freshness of ids, and the handler count and presence
    of ids across any history of registrations, unregisterings and clears.
  - `handler_id.rs` — ids, their decimal text, and the id counter.
  - `store.rs`, `cell.rs` — the shared state of a registry in `arc_swap`
    cells, changed copy-on-write through `HandlerTable::updated`.
  - `sync/` — `SyncRegistry` and the boxed `Handler` closures it stores.
  - `dispatch.rs` — the decisions of a dispatch as a step function: which
    handler runs next and when a panic is reported, with the law that every
    handler runs once, in order, its panic reported before the next one runs;
    and which handlers of a concurrent dispatch are reported as panicked.
  - `join.rs` — which of several joined futures are still pending, and when
    all have finished.
  - `panic.rs` — `PanicInfo`, its message and description, and the panic
    callback holder.
- `app/` — ordinary Rust: dispatching events (`Notify`), which runs each
  handler that a `Dispatch` asks for under `std::panic::catch_unwind` and
  hands the outcome back; `HandlerGuard`, which unregisters on drop; and the
  asynchronous registry, whose handlers return futures, joined with the
  bookkeeping of a `JoinState`.
- `tests/` — tests of the library.
