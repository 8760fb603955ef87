//! Properties of the handler table that hold across its operations.

use std::sync::Arc;
use vstd::prelude::*;

use crate::handler_id::{
    handler_id_of, lemma_handler_id_of, lemma_handler_id_view_injective, HandlerId,
};
use crate::table::{
    distinct_ids, fires_before, has_id, ids_issued_before, in_dispatch_order,
    lemma_filter_drops_all, lemma_filter_keeps_all, lemma_insert_keeps_order,
    lemma_priority_slot_is_boundary, lemma_remove_keeps_distinct, lemma_remove_keeps_order,
    priority_slot,
    update_applied, with_registration, without_id, HandlerEntry, HandlerTable, TableUpdate,
};

verus! {

broadcast use {lemma_handler_id_of, lemma_handler_id_view_injective};

/// Filtering keeps every element that passes.
proof fn lemma_filter_keeps_passing<A>(s: Seq<A>, pred: spec_fn(A) -> bool)
    ensures
        forall|x: A| s.contains(x) && pred(x) ==> s.filter(pred).contains(x),
    decreases s.len(),
{
    reveal(Seq::filter);
    if s.len() > 0 {
        let r = s.drop_last();
        lemma_filter_keeps_passing(r, pred);
        let f = s.filter(pred);
        assert forall|x: A| s.contains(x) && pred(x) implies f.contains(x) by {
            let k = choose|k: int| 0 <= k < s.len() && s[k] == x;
            if k == s.len() - 1 {
                assert(f[f.len() - 1] == x);
            } else {
                assert(r[k] == x);
                assert(r.contains(x));
                let j = choose|j: int| 0 <= j < r.filter(pred).len() && r.filter(pred)[j] == x;
                assert(f[j] == x);
            }
        }
    }
}

/// Dispatch order: in a table, an earlier entry has the higher priority, or
/// the same priority and an older registration (a smaller id).
pub proof fn law_dispatch_order<T>(table: HandlerTable<T>, i: int, j: int)
    requires
        table.well_formed(),
        0 <= i < j < table@.len(),
    ensures
        table@[i].priority > table@[j].priority || (table@[i].priority == table@[j].priority
            && table@[i].id@ < table@[j].id@),
{
    assert(fires_before(table@[i], table@[j]));
}

/// Registration: the new handler, under the id the counter stood at, goes
/// after every registration of at least its priority and before every one
/// of lower priority; all other registrations keep their relative order,
/// and the result is again in dispatch order.
pub proof fn law_registration_placement<T>(
    table: HandlerTable<T>,
    priority: i32,
    handler: Arc<T>,
)
    requires
        table.well_formed(),
    ensures
        ({
            let s = table@;
            let r = with_registration(s, table.next_id(), priority, handler);
            let k = priority_slot(s, priority);
            &&& 0 <= k <= s.len()
            &&& r.len() == s.len() + 1
            &&& r[k] == HandlerEntry { id: handler_id_of(table.next_id()), priority, handler }
            &&& forall|i: int| 0 <= i < k ==> r[i] == s[i] && (#[trigger] s[i]).priority >= priority
            &&& forall|i: int|
                k <= i < s.len() ==> r[i + 1] == s[i] && (#[trigger] s[i]).priority < priority
            &&& in_dispatch_order(r)
        }),
{
    let s = table@;
    let k = slot_boundary(s, priority);
    lemma_slot_boundary(s, priority, k);
    let e = HandlerEntry { id: handler_id_of(table.next_id()), priority, handler };
    assert forall|i: int| 0 <= i < s.len() implies (#[trigger] s[i]).id@ < e.id@ by {
        assert(ids_issued_before(s, table.next_id()));
    }
    lemma_insert_keeps_order(s, k, e);
}

/// The number of leading entries of `s` with a priority of at least
/// `priority` (`s` in dispatch order).
spec fn slot_boundary<T>(s: Seq<HandlerEntry<T>>, priority: i32) -> int
    decreases s.len(),
{
    if s.len() == 0 {
        0
    } else if s.last().priority >= priority {
        s.len() as int
    } else {
        slot_boundary(s.drop_last(), priority)
    }
}

/// Dropping the last entry keeps the dispatch order of the rest.
proof fn lemma_drop_last_keeps_order<T>(s: Seq<HandlerEntry<T>>)
    requires
        in_dispatch_order(s),
        s.len() > 0,
    ensures
        in_dispatch_order(s.drop_last()),
{
    lemma_remove_keeps_order(s, s.len() - 1);
    assert(s.remove(s.len() - 1) =~= s.drop_last());
}

/// In a sequence in dispatch order, the priority slot is the boundary
/// between the entries of at least that priority and the others.
proof fn lemma_slot_boundary<T>(s: Seq<HandlerEntry<T>>, priority: i32, k: int)
    requires
        in_dispatch_order(s),
        k == slot_boundary(s, priority),
    ensures
        0 <= k <= s.len(),
        k == priority_slot(s, priority),
        forall|i: int| 0 <= i < k ==> (#[trigger] s[i]).priority >= priority,
        forall|i: int| k <= i < s.len() ==> (#[trigger] s[i]).priority < priority,
{
    lemma_slot_boundary_split(s, priority, k);
    lemma_priority_slot_is_boundary(s, priority, k);
}

proof fn lemma_slot_boundary_split<T>(s: Seq<HandlerEntry<T>>, priority: i32, k: int)
    requires
        in_dispatch_order(s),
        k == slot_boundary(s, priority),
    ensures
        0 <= k <= s.len(),
        forall|i: int| 0 <= i < k ==> (#[trigger] s[i]).priority >= priority,
        forall|i: int| k <= i < s.len() ==> (#[trigger] s[i]).priority < priority,
    decreases s.len(),
{
    if s.len() == 0 {
    } else if s.last().priority >= priority {
        assert forall|i: int| 0 <= i < s.len() implies (#[trigger] s[i]).priority >= priority by {
            if i < s.len() - 1 {
                assert(fires_before(s[i], s[s.len() - 1]));
            }
        }
    } else {
        let r = s.drop_last();
        lemma_drop_last_keeps_order(s);
        lemma_slot_boundary_split(r, priority, k);
        assert forall|i: int| 0 <= i < k implies (#[trigger] s[i]).priority >= priority by {
            assert(s[i] == r[i]);
        }
        assert forall|i: int| k <= i < s.len() implies (#[trigger] s[i]).priority < priority by {
            if i < s.len() - 1 {
                assert(s[i] == r[i]);
            }
        }
    }
}

/// A handler is registered under the id that registration returns, and that
/// id was not in the table before.
pub proof fn law_registered_id_is_new_and_present<T>(
    table: HandlerTable<T>,
    priority: i32,
    handler: Arc<T>,
)
    requires
        table.well_formed(),
    ensures
        !has_id(table@, handler_id_of(table.next_id())),
        has_id(
            with_registration(table@, table.next_id(), priority, handler),
            handler_id_of(table.next_id()),
        ),
{
    law_registration_placement(table, priority, handler);
    let k = priority_slot(table@, priority);
    let r = with_registration(table@, table.next_id(), priority, handler);
    assert(r[k].id == handler_id_of(table.next_id()));
    if has_id(table@, handler_id_of(table.next_id())) {
        let i = choose|i: int|
            0 <= i < table@.len() && #[trigger] table@[i].id == handler_id_of(table.next_id());
        assert(ids_issued_before(table@, table.next_id()));
        assert(table@[i].id@ < table.next_id());
    }
}

/// Unregistering: afterwards no handler carries the id, every other
/// registration stays in its relative order, and the table is again in
/// dispatch order with distinct ids.
pub proof fn law_unregister_removes_exactly_that_id<T>(s: Seq<HandlerEntry<T>>, id: HandlerId)
    requires
        in_dispatch_order(s),
        distinct_ids(s),
    ensures
        !has_id(without_id(s, id), id),
        forall|x: HandlerEntry<T>| s.contains(x) && x.id != id ==> without_id(s, id).contains(x),
        in_dispatch_order(without_id(s, id)),
        distinct_ids(without_id(s, id)),
        without_id(s, id).len() == if has_id(s, id) {
            s.len() - 1
        } else {
            s.len() as int
        },
{
    lemma_filter_keeps_passing(s, |e: HandlerEntry<T>| e.id != id);
    lemma_without_id_shape(s, id);
}

/// `without_id` keeps order, distinctness, and drops exactly the one entry
/// that carries the id, if any.
proof fn lemma_without_id_shape<T>(s: Seq<HandlerEntry<T>>, id: HandlerId)
    requires
        in_dispatch_order(s),
        distinct_ids(s),
    ensures
        !has_id(without_id(s, id), id),
        in_dispatch_order(without_id(s, id)),
        distinct_ids(without_id(s, id)),
        without_id(s, id).len() == if has_id(s, id) {
            s.len() - 1
        } else {
            s.len() as int
        },
        forall|i: int|
            0 <= i < without_id(s, id).len() ==> exists|k: int|
                0 <= k < s.len() && s[k] == #[trigger] without_id(s, id)[i],
    decreases s.len(),
{
    reveal(Seq::filter);
    let pred = |e: HandlerEntry<T>| e.id != id;
    if s.len() > 0 {
        let r = s.drop_last();
        lemma_drop_last_keeps_order(s);
        lemma_remove_keeps_distinct(s, s.len() - 1);
        assert(s.remove(s.len() - 1) =~= r);
        lemma_without_id_shape(r, id);
        let fr = without_id(r, id);
        let f = without_id(s, id);
        if pred(s.last()) {
            assert(f == fr.push(s.last()));
            // the last entry comes after every earlier one
            assert forall|i: int| 0 <= i < fr.len() implies fires_before(
                #[trigger] fr[i],
                s.last(),
            ) && fr[i].id != s.last().id by {
                let k = choose|k: int| 0 <= k < r.len() && r[k] == #[trigger] fr[i];
                assert(fires_before(s[k], s[s.len() - 1]));
                assert(s[k].id != s[s.len() - 1].id);
            }
            assert forall|i: int, j: int| 0 <= i < j < f.len() implies fires_before(
                #[trigger] f[i],
                #[trigger] f[j],
            ) by {
                if j < f.len() - 1 {
                    assert(fires_before(fr[i], fr[j]));
                }
            }
            assert forall|i: int, j: int|
                0 <= i < f.len() && 0 <= j < f.len() && i != j implies (#[trigger] f[i]).id != (
                #[trigger] f[j]).id by {
                if i < f.len() - 1 && j < f.len() - 1 {
                    assert(fr[i].id != fr[j].id);
                }
            }
            if has_id(s, id) {
                let k = choose|k: int| 0 <= k < s.len() && #[trigger] s[k].id == id;
                assert(k != s.len() - 1);
                assert(r[k].id == id);
            } else {
                assert forall|k: int| 0 <= k < r.len() implies (#[trigger] r[k]).id != id by {
                    assert(s[k] == r[k]);
                }
            }
            assert forall|i: int| 0 <= i < f.len() implies exists|k: int|
                0 <= k < s.len() && s[k] == #[trigger] f[i] by {
                if i == f.len() - 1 {
                    assert(s[s.len() - 1] == f[i]);
                } else {
                    let k = choose|k: int| 0 <= k < r.len() && r[k] == #[trigger] fr[i];
                    assert(s[k] == f[i]);
                }
            }
            assert(!has_id(f, id)) by {
                if has_id(f, id) {
                    let i = choose|i: int| 0 <= i < f.len() && #[trigger] f[i].id == id;
                    if i < f.len() - 1 {
                        assert(fr[i].id == id);
                    }
                }
            }
        } else {
            assert(f == fr);
            assert(has_id(s, id));
            assert forall|k: int| 0 <= k < r.len() implies (#[trigger] r[k]).id != id by {
                assert(s[k].id != s[s.len() - 1].id);
            }
            assert(!has_id(r, id));
            assert forall|i: int| 0 <= i < f.len() implies exists|k: int|
                0 <= k < s.len() && s[k] == #[trigger] f[i] by {
                let k = choose|k: int| 0 <= k < r.len() && r[k] == #[trigger] fr[i];
                assert(s[k] == f[i]);
            }
        }
    }
}

/// Unregistering twice: the second time there is nothing to remove and the
/// table does not change.
pub proof fn law_unregister_twice<T>(s: Seq<HandlerEntry<T>>, id: HandlerId)
    requires
        in_dispatch_order(s),
        distinct_ids(s),
    ensures
        !has_id(without_id(s, id), id),
        without_id(without_id(s, id), id) == without_id(s, id),
{
    lemma_without_id_shape(s, id);
    let f = without_id(s, id);
    assert forall|i: int| 0 <= i < f.len() implies (|e: HandlerEntry<T>| e.id != id)(
        #[trigger] f[i],
    ) by {
        if f[i].id == id {
            assert(has_id(f, id));
        }
    }
    lemma_filter_keeps_all(f, |e: HandlerEntry<T>| e.id != id);
}

/// Unregistering the handler that was just registered gives back the table
/// as it was before the registration.
pub proof fn law_unregister_undoes_register<T>(
    table: HandlerTable<T>,
    priority: i32,
    handler: Arc<T>,
)
    requires
        table.well_formed(),
    ensures
        without_id(
            with_registration(table@, table.next_id(), priority, handler),
            handler_id_of(table.next_id()),
        ) == table@,
{
    let s = table@;
    let id = handler_id_of(table.next_id());
    let k = slot_boundary(s, priority);
    lemma_slot_boundary(s, priority, k);
    let e = HandlerEntry { id, priority, handler };
    let r = s.insert(k, e);
    let pred = |x: HandlerEntry<T>| x.id != id;
    let a = s.take(k);
    let b = s.skip(k);
    let m = seq![e];
    assert(r =~= a + m + b);
    assert(a + b =~= s);
    assert forall|i: int| 0 <= i < s.len() implies pred(#[trigger] s[i]) by {
        assert(ids_issued_before(s, table.next_id()));
        assert(s[i].id@ < table.next_id());
    }
    assert forall|i: int| 0 <= i < a.len() implies pred(#[trigger] a[i]) by {
        assert(a[i] == s[i]);
    }
    assert forall|i: int| 0 <= i < b.len() implies pred(#[trigger] b[i]) by {
        assert(b[i] == s[k + i]);
    }
    lemma_filter_keeps_all(a, pred);
    lemma_filter_keeps_all(b, pred);
    lemma_filter_drops_all(m, pred);
    Seq::filter_distributes_over_add(a + m, b, pred);
    Seq::filter_distributes_over_add(a, m, pred);
    assert(a + Seq::<HandlerEntry<T>>::empty() =~= a);
}

/// Ids stay unique after `clear`: it keeps the counter, so the next id is
/// newer than every id issued before, including those of cleared handlers.
pub proof fn law_ids_stay_fresh<T>(table: HandlerTable<T>, earlier: HandlerId)
    requires
        table.well_formed(),
        has_id(table@, earlier),
    ensures
        earlier@ < table.next_id(),
        earlier != handler_id_of(table.next_id()),
{
    let i = choose|i: int| 0 <= i < table@.len() && #[trigger] table@[i].id == earlier;
    assert(ids_issued_before(table@, table.next_id()));
    assert(table@[i].id@ < table.next_id());
}

/// `tables` is a history of `updates`: each table is what the update before
/// it made of the table before it.
pub open spec fn is_history<T>(tables: Seq<HandlerTable<T>>, updates: Seq<TableUpdate<T>>) -> bool {
    &&& tables.len() == updates.len() + 1
    &&& forall|i: int|
        0 <= i < updates.len() ==> #[trigger] update_applied(tables[i], updates[i], tables[i + 1])
    &&& forall|i: int| 0 <= i < tables.len() ==> (#[trigger] tables[i]).well_formed()
}

/// The handler count that bookkeeping gives after the first `n` updates:
/// the count at the start, one more for each registration (while ids are
/// left), one less for each unregistering that found its id, and zero after
/// a clear.
pub open spec fn bookkept_count<T>(
    tables: Seq<HandlerTable<T>>,
    updates: Seq<TableUpdate<T>>,
    n: nat,
) -> int
    decreases n,
{
    if n == 0 {
        tables[0]@.len() as int
    } else {
        let before = bookkept_count(tables, updates, (n - 1) as nat);
        let previous = tables[n - 1];
        match updates[n - 1] {
            TableUpdate::Register { .. } => if previous.next_id() < u64::MAX {
                before + 1
            } else {
                before
            },
            TableUpdate::Unregister(id) => if has_id(previous@, id) {
                before - 1
            } else {
                before
            },
            TableUpdate::Clear => 0,
        }
    }
}

/// Whether `id` is registered after the first `n` updates, by bookkeeping:
/// it was registered at the start or received the id of a registration,
/// and no later unregistering of it and no later clear came after.
pub open spec fn bookkept_presence<T>(
    tables: Seq<HandlerTable<T>>,
    updates: Seq<TableUpdate<T>>,
    id: HandlerId,
    n: nat,
) -> bool
    decreases n,
{
    if n == 0 {
        has_id(tables[0]@, id)
    } else {
        let before = bookkept_presence(tables, updates, id, (n - 1) as nat);
        let previous = tables[n - 1];
        match updates[n - 1] {
            TableUpdate::Register { .. } => before || (previous.next_id() < u64::MAX && id@
                == previous.next_id()),
            TableUpdate::Unregister(other) => before && other != id,
            TableUpdate::Clear => false,
        }
    }
}

/// After a registration, the ids present are those present before and the
/// new one.
proof fn lemma_registration_ids<T>(
    table: HandlerTable<T>,
    priority: i32,
    handler: Arc<T>,
    id: HandlerId,
)
    requires
        table.well_formed(),
    ensures
        has_id(with_registration(table@, table.next_id(), priority, handler), id) == (has_id(
            table@,
            id,
        ) || id == handler_id_of(table.next_id())),
{
    law_registration_placement(table, priority, handler);
    let s = table@;
    let r = with_registration(s, table.next_id(), priority, handler);
    let k = priority_slot(s, priority);
    if has_id(s, id) {
        let i = choose|i: int| 0 <= i < s.len() && #[trigger] s[i].id == id;
        if i < k {
            assert(r[i] == s[i]);
        } else {
            assert(r[i + 1] == s[i]);
        }
    }
    if id == handler_id_of(table.next_id()) {
        assert(r[k].id == id);
    }
    if has_id(r, id) {
        let j = choose|j: int| 0 <= j < r.len() && #[trigger] r[j].id == id;
        if j < k {
            assert(r[j] == s[j]);
        } else if k < j {
            assert(r[j] == s[j - 1]);
        }
    }
}

/// After unregistering `other`, the ids present are those present before
/// but `other`.
proof fn lemma_unregistration_ids<T>(s: Seq<HandlerEntry<T>>, other: HandlerId, id: HandlerId)
    requires
        in_dispatch_order(s),
        distinct_ids(s),
    ensures
        has_id(without_id(s, other), id) == (has_id(s, id) && id != other),
{
    law_unregister_removes_exactly_that_id(s, other);
    lemma_without_id_shape(s, other);
    let w = without_id(s, other);
    if has_id(s, id) && id != other {
        let i = choose|i: int| 0 <= i < s.len() && #[trigger] s[i].id == id;
        assert(s.contains(s[i]));
        assert(w.contains(s[i]));
        let j = choose|j: int| 0 <= j < w.len() && w[j] == s[i];
        assert(w[j].id == id);
    }
    if has_id(w, id) {
        let j = choose|j: int| 0 <= j < w.len() && #[trigger] w[j].id == id;
        let k = choose|k: int| 0 <= k < s.len() && s[k] == #[trigger] w[j];
        assert(s[k].id == id);
    }
}

/// Handler count across a history: after any sequence of registrations,
/// unregisterings and clears, the number of handlers is the bookkept count.
pub proof fn law_handler_count_follows_bookkeeping<T>(
    tables: Seq<HandlerTable<T>>,
    updates: Seq<TableUpdate<T>>,
    n: nat,
)
    requires
        is_history(tables, updates),
        n <= updates.len(),
    ensures
        tables[n as int]@.len() == bookkept_count(tables, updates, n),
    decreases n,
{
    if n > 0 {
        let m = (n - 1) as int;
        law_handler_count_follows_bookkeeping(tables, updates, (n - 1) as nat);
        let previous = tables[m];
        assert(update_applied(tables[m], updates[m], tables[m + 1]));
        assert(previous.well_formed());
        match updates[m] {
            TableUpdate::Register { priority, handler } => {
                law_registration_placement(previous, priority, handler);
            },
            TableUpdate::Unregister(id) => {
                law_unregister_removes_exactly_that_id(previous@, id);
            },
            TableUpdate::Clear => {},
        }
    }
}

/// Presence across a history: after any sequence of registrations,
/// unregisterings and clears, an id is registered exactly when bookkeeping
/// says so.
pub proof fn law_presence_follows_bookkeeping<T>(
    tables: Seq<HandlerTable<T>>,
    updates: Seq<TableUpdate<T>>,
    id: HandlerId,
    n: nat,
)
    requires
        is_history(tables, updates),
        n <= updates.len(),
    ensures
        has_id(tables[n as int]@, id) == bookkept_presence(tables, updates, id, n),
    decreases n,
{
    if n > 0 {
        let m = (n - 1) as int;
        law_presence_follows_bookkeeping(tables, updates, id, (n - 1) as nat);
        let previous = tables[m];
        assert(update_applied(tables[m], updates[m], tables[m + 1]));
        assert(previous.well_formed());
        match updates[m] {
            TableUpdate::Register { priority, handler } => {
                if previous.next_id() < u64::MAX {
                    lemma_registration_ids(previous, priority, handler, id);
                    lemma_handler_id_view_injective(id, handler_id_of(previous.next_id()));
                }
            },
            TableUpdate::Unregister(other) => {
                lemma_unregistration_ids(previous@, other, id);
            },
            TableUpdate::Clear => {},
        }
    }
}

} // verus!
