//! The handler table: the priority-ordered list of registrations that a
//! registry publishes as one immutable snapshot at a time.

use std::sync::Arc;
use vstd::prelude::*;

use crate::handler_id::{
    handler_id_of, lemma_handler_id_of, lemma_handler_id_view_injective, HandlerId,
    HandlerIdGenerator,
};

verus! {

broadcast use {lemma_handler_id_of, lemma_handler_id_view_injective};

/// One registration: its id, its priority and the handler itself.
pub struct HandlerEntry<T> {
    pub id: HandlerId,
    pub priority: i32,
    pub handler: Arc<T>,
}

impl<T> HandlerEntry<T> {
    /// The id under which the handler was registered.
    pub fn id(&self) -> (id: HandlerId)
        ensures
            id == self.id,
    {
        self.id
    }

    /// The priority the handler was registered with.
    pub fn priority(&self) -> (p: i32)
        ensures
            p == self.priority,
    {
        self.priority
    }

    /// The registered handler.
    pub fn handler(&self) -> (h: &Arc<T>)
        ensures
            *h == self.handler,
    {
        &self.handler
    }
}

/// `std::sync::Arc::clone`: a second pointer to the same handler, equal to
/// the first.
#[verifier::external_body]
fn share<T>(handler: &Arc<T>) -> (copy: Arc<T>)
    ensures
        copy == *handler,
{
    Arc::clone(handler)
}

/// `a` fires before `b`: it has the higher priority, or the same priority
/// and was registered earlier (ids are issued in ascending order).
pub open spec fn fires_before<T>(a: HandlerEntry<T>, b: HandlerEntry<T>) -> bool {
    a.priority > b.priority || (a.priority == b.priority && a.id@ < b.id@)
}

/// Every entry fires before every entry that follows it.
pub open spec fn in_dispatch_order<T>(s: Seq<HandlerEntry<T>>) -> bool {
    forall|i: int, j: int| 0 <= i < j < s.len() ==> fires_before(#[trigger] s[i], #[trigger] s[j])
}

/// Every id in `s` was issued by a generator now standing at `next`.
pub open spec fn ids_issued_before<T>(s: Seq<HandlerEntry<T>>, next: u64) -> bool {
    forall|i: int| 0 <= i < s.len() ==> 1 <= #[trigger] s[i].id@ < next
}

/// No two entries of `s` carry the same id.
pub open spec fn distinct_ids<T>(s: Seq<HandlerEntry<T>>) -> bool {
    forall|i: int, j: int| 0 <= i < s.len() && 0 <= j < s.len() && i != j ==> (#[trigger] s[i]).id
        != (#[trigger] s[j]).id
}

/// Some entry of `s` carries `id`.
pub open spec fn has_id<T>(s: Seq<HandlerEntry<T>>, id: HandlerId) -> bool {
    exists|i: int| 0 <= i < s.len() && #[trigger] s[i].id == id
}

/// `s` with every entry that carries `id` taken out, the others in order.
pub open spec fn without_id<T>(s: Seq<HandlerEntry<T>>, id: HandlerId) -> Seq<HandlerEntry<T>> {
    s.filter(|e: HandlerEntry<T>| e.id != id)
}

/// How many entries of `s` have a priority of at least `priority`: the
/// place at which a new registration with that priority is inserted.
pub open spec fn priority_slot<T>(s: Seq<HandlerEntry<T>>, priority: i32) -> int {
    s.filter(|e: HandlerEntry<T>| e.priority >= priority).len() as int
}

/// `s` after registering `handler` with `priority` under the id `next`.
pub open spec fn with_registration<T>(
    s: Seq<HandlerEntry<T>>,
    next: u64,
    priority: i32,
    handler: Arc<T>,
) -> Seq<HandlerEntry<T>> {
    s.insert(
        priority_slot(s, priority),
        HandlerEntry { id: handler_id_of(next), priority, handler },
    )
}

/// Filtering keeps a sequence whole when every element passes.
pub(crate) proof fn lemma_filter_keeps_all<A>(s: Seq<A>, pred: spec_fn(A) -> bool)
    requires
        forall|i: int| 0 <= i < s.len() ==> pred(#[trigger] s[i]),
    ensures
        s.filter(pred) == s,
    decreases s.len(),
{
    reveal(Seq::filter);
    if s.len() > 0 {
        lemma_filter_keeps_all(s.drop_last(), pred);
        assert(s.drop_last().push(s.last()) =~= s);
    }
}

/// Filtering empties a sequence when no element passes.
pub(crate) proof fn lemma_filter_drops_all<A>(s: Seq<A>, pred: spec_fn(A) -> bool)
    requires
        forall|i: int| 0 <= i < s.len() ==> !pred(#[trigger] s[i]),
    ensures
        s.filter(pred) == Seq::<A>::empty(),
    decreases s.len(),
{
    reveal(Seq::filter);
    if s.len() > 0 {
        lemma_filter_drops_all(s.drop_last(), pred);
    }
}

/// When the entries with priority at least `priority` are exactly the first
/// `k`, the priority slot is `k`.
pub(crate) proof fn lemma_priority_slot_is_boundary<T>(s: Seq<HandlerEntry<T>>, priority: i32, k: int)
    requires
        0 <= k <= s.len(),
        forall|i: int| 0 <= i < k ==> (#[trigger] s[i]).priority >= priority,
        forall|i: int| k <= i < s.len() ==> (#[trigger] s[i]).priority < priority,
    ensures
        priority_slot(s, priority) == k,
{
    let pred = |e: HandlerEntry<T>| e.priority >= priority;
    let a = s.take(k);
    let b = s.skip(k);
    assert(s =~= a + b);
    Seq::filter_distributes_over_add(a, b, pred);
    lemma_filter_keeps_all(a, pred);
    lemma_filter_drops_all(b, pred);
}

/// Taking out the only entry that carries `id` (at index `k`) is the same as
/// filtering `id` out.
proof fn lemma_remove_is_without_id<T>(s: Seq<HandlerEntry<T>>, id: HandlerId, k: int)
    requires
        0 <= k < s.len(),
        s[k].id == id,
        distinct_ids(s),
    ensures
        s.remove(k) == without_id(s, id),
{
    let pred = |e: HandlerEntry<T>| e.id != id;
    let a = s.take(k);
    let m = seq![s[k]];
    let b = s.skip(k + 1);
    assert(s =~= a + m + b);
    assert(s.remove(k) =~= a + b);
    Seq::filter_distributes_over_add(a + m, b, pred);
    Seq::filter_distributes_over_add(a, m, pred);
    assert forall|i: int| 0 <= i < a.len() implies pred(#[trigger] a[i]) by {
        assert(s[i].id != s[k].id);
    }
    assert forall|i: int| 0 <= i < b.len() implies pred(#[trigger] b[i]) by {
        assert(s[k + 1 + i].id != s[k].id);
    }
    lemma_filter_keeps_all(a, pred);
    lemma_filter_keeps_all(b, pred);
    lemma_filter_drops_all(m, pred);
    assert(a + Seq::<HandlerEntry<T>>::empty() =~= a);
}

/// Inserting an entry whose id is newer than every other, after every entry
/// of at least its priority and before every entry of lower priority, keeps
/// the dispatch order.
pub(crate) proof fn lemma_insert_keeps_order<T>(s: Seq<HandlerEntry<T>>, k: int, e: HandlerEntry<T>)
    requires
        in_dispatch_order(s),
        0 <= k <= s.len(),
        forall|i: int| 0 <= i < k ==> (#[trigger] s[i]).priority >= e.priority,
        forall|i: int| k <= i < s.len() ==> (#[trigger] s[i]).priority < e.priority,
        forall|i: int| 0 <= i < s.len() ==> (#[trigger] s[i]).id@ < e.id@,
    ensures
        in_dispatch_order(s.insert(k, e)),
{
    let t = s.insert(k, e);
    assert forall|i: int, j: int| 0 <= i < j < t.len() implies fires_before(
        #[trigger] t[i],
        #[trigger] t[j],
    ) by {
        if j < k {
            assert(fires_before(s[i], s[j]));
        } else if j == k {
            assert(t[i] == s[i]);
        } else if i < k {
            assert(fires_before(s[i], s[j - 1]));
        } else if i == k {
            assert(t[j] == s[j - 1]);
        } else {
            assert(fires_before(s[i - 1], s[j - 1]));
        }
    }
}

/// Taking an entry out keeps the dispatch order of the rest.
pub(crate) proof fn lemma_remove_keeps_order<T>(s: Seq<HandlerEntry<T>>, k: int)
    requires
        in_dispatch_order(s),
        0 <= k < s.len(),
    ensures
        in_dispatch_order(s.remove(k)),
{
    let t = s.remove(k);
    assert forall|i: int, j: int| 0 <= i < j < t.len() implies fires_before(
        #[trigger] t[i],
        #[trigger] t[j],
    ) by {
        let a = if i < k { i } else { i + 1 };
        let b = if j < k { j } else { j + 1 };
        assert(t[i] == s[a] && t[j] == s[b]);
        assert(fires_before(s[a], s[b]));
    }
}

/// Inserting an entry whose id is not yet present keeps ids distinct.
proof fn lemma_insert_keeps_distinct<T>(s: Seq<HandlerEntry<T>>, k: int, e: HandlerEntry<T>)
    requires
        distinct_ids(s),
        0 <= k <= s.len(),
        forall|i: int| 0 <= i < s.len() ==> (#[trigger] s[i]).id != e.id,
    ensures
        distinct_ids(s.insert(k, e)),
{
    let t = s.insert(k, e);
    assert forall|i: int, j: int|
        0 <= i < t.len() && 0 <= j < t.len() && i != j implies (#[trigger] t[i]).id != (
        #[trigger] t[j]).id by {
        let a = if i < k { i } else { i - 1 };
        let b = if j < k { j } else { j - 1 };
        if i != k && j != k {
            assert(t[i] == s[a] && t[j] == s[b]);
        } else if i == k {
            assert(t[j] == s[b]);
        } else {
            assert(t[i] == s[a]);
        }
    }
}

/// Taking an entry out keeps ids distinct.
pub(crate) proof fn lemma_remove_keeps_distinct<T>(s: Seq<HandlerEntry<T>>, k: int)
    requires
        distinct_ids(s),
        0 <= k < s.len(),
    ensures
        distinct_ids(s.remove(k)),
{
    let t = s.remove(k);
    assert forall|i: int, j: int|
        0 <= i < t.len() && 0 <= j < t.len() && i != j implies (#[trigger] t[i]).id != (
        #[trigger] t[j]).id by {
        let a = if i < k { i } else { i + 1 };
        let b = if j < k { j } else { j + 1 };
        assert(t[i] == s[a] && t[j] == s[b]);
    }
}

/// The priority-ordered table of registrations, together with the counter
/// that issues the id of the next registration.
pub struct HandlerTable<T> {
    entries: Vec<HandlerEntry<T>>,
    ids: HandlerIdGenerator,
}

impl<T> View for HandlerTable<T> {
    type V = Seq<HandlerEntry<T>>;

    /// The registrations in the order in which their handlers fire.
    closed spec fn view(&self) -> Seq<HandlerEntry<T>> {
        self.entries@
    }
}

/// `next` is what applying `update` to `previous` gives: the registration
/// (unless the id counter is exhausted, when nothing changes), the removal
/// of an id, or the emptied table; only a registration moves the counter.
pub open spec fn update_applied<T>(
    previous: HandlerTable<T>,
    update: TableUpdate<T>,
    next: HandlerTable<T>,
) -> bool {
    match update {
        TableUpdate::Register { priority, handler } => if previous.next_id() < u64::MAX {
            &&& next@ == with_registration(previous@, previous.next_id(), priority, handler)
            &&& next.next_id() == previous.next_id() + 1
        } else {
            &&& next@ == previous@
            &&& next.next_id() == previous.next_id()
        },
        TableUpdate::Unregister(id) => {
            &&& next@ == without_id(previous@, id)
            &&& next.next_id() == previous.next_id()
        },
        TableUpdate::Clear => {
            &&& next@ == Seq::<HandlerEntry<T>>::empty()
            &&& next.next_id() == previous.next_id()
        },
    }
}

/// A change to a table, applied copy-on-write by a registry.
pub enum TableUpdate<T> {
    /// Register `handler` with `priority` under the next id.
    Register { priority: i32, handler: Arc<T> },
    /// Take out the registration with this id.
    Unregister(HandlerId),
    /// Take out every registration.
    Clear,
}

impl<T> HandlerTable<T> {
    /// The id the next registration receives.
    pub closed spec fn next_id(&self) -> u64 {
        self.ids.upcoming()
    }

    /// The table's invariant: entries in dispatch order, no id twice, every
    /// id issued before the counter's current value, and no id `0`.
    #[verifier::type_invariant]
    pub open spec fn well_formed(&self) -> bool {
        &&& 1 <= self.next_id()
        &&& in_dispatch_order(self@)
        &&& distinct_ids(self@)
        &&& ids_issued_before(self@, self.next_id())
    }

    /// An empty table whose first id will be `1`.
    pub fn new() -> (t: Self)
        ensures
            t@ == Seq::<HandlerEntry<T>>::empty(),
            t.next_id() == 1,
    {
        HandlerTable { entries: Vec::new(), ids: HandlerIdGenerator::new() }
    }

    /// An empty table with room for `capacity` registrations.
    pub fn with_capacity(capacity: usize) -> (t: Self)
        ensures
            t@ == Seq::<HandlerEntry<T>>::empty(),
            t.next_id() == 1,
    {
        HandlerTable { entries: Vec::with_capacity(capacity), ids: HandlerIdGenerator::new() }
    }

    /// The number of registrations.
    pub fn len(&self) -> (n: usize)
        ensures
            n == self@.len(),
    {
        self.entries.len()
    }

    /// `true` when nothing is registered.
    pub fn is_empty(&self) -> (b: bool)
        ensures
            b == (self@.len() == 0),
    {
        self.entries.len() == 0
    }

    /// The registration at `index` in dispatch order.
    pub fn entry(&self, index: usize) -> (e: &HandlerEntry<T>)
        requires
            index < self@.len(),
        ensures
            *e == self@[index as int],
    {
        &self.entries[index]
    }

    /// The id the next registration will receive.
    pub fn upcoming_id(&self) -> (id: HandlerId)
        ensures
            id@ == self.next_id(),
    {
        self.ids.peek()
    }

    /// `true` when the id counter has reached `u64::MAX`, so that no further
    /// registration can be taken.
    pub fn is_exhausted(&self) -> (b: bool)
        ensures
            b == (self.next_id() == u64::MAX),
    {
        self.ids.is_exhausted()
    }

    /// `true` when a registration carries `id`.
    pub fn contains(&self, id: HandlerId) -> (found: bool)
        ensures
            found == has_id(self@, id),
        no_unwind
    {
        let n = self.entries.len();
        let mut i: usize = 0;
        while i < n
            invariant
                n == self@.len(),
                0 <= i <= n,
                forall|j: int| 0 <= j < i ==> (#[trigger] self@[j]).id != id,
            decreases n - i,
        {
            if self.entries[i].id == id {
                return true;
            }
            i = i + 1;
        }
        false
    }

    /// The index of the registration that carries `id`, if any.
    fn index_of(&self, id: HandlerId) -> (found: Option<usize>)
        ensures
            match found {
                Some(k) => k < self@.len() && self@[k as int].id == id,
                None => !has_id(self@, id),
            },
    {
        let n = self.entries.len();
        let mut i: usize = 0;
        while i < n
            invariant
                n == self@.len(),
                0 <= i <= n,
                forall|j: int| 0 <= j < i ==> (#[trigger] self@[j]).id != id,
            decreases n - i,
        {
            if self.entries[i].id == id {
                return Some(i);
            }
            i = i + 1;
        }
        None
    }

    /// Where a registration with `priority` goes: after every registration
    /// of at least that priority (binary search over the ordered entries).
    pub fn slot_for(&self, priority: i32) -> (pos: usize)
        ensures
            pos == priority_slot(self@, priority),
            forall|i: int| 0 <= i < pos ==> (#[trigger] self@[i]).priority >= priority,
            forall|i: int| pos <= i < self@.len() ==> (#[trigger] self@[i]).priority < priority,
    {
        proof {
            use_type_invariant(self);
        }
        let mut lo: usize = 0;
        let mut hi: usize = self.entries.len();
        while lo < hi
            invariant
                0 <= lo <= hi <= self@.len(),
                in_dispatch_order(self@),
                forall|i: int| 0 <= i < lo ==> (#[trigger] self@[i]).priority >= priority,
                forall|i: int| hi <= i < self@.len() ==> (#[trigger] self@[i]).priority < priority,
            decreases hi - lo,
        {
            let mid = lo + (hi - lo) / 2;
            if self.entries[mid].priority >= priority {
                proof {
                    assert forall|i: int| 0 <= i <= mid implies (#[trigger] self@[i]).priority
                        >= priority by {
                        if i < mid {
                            assert(fires_before(self@[i], self@[mid as int]));
                        }
                    }
                }
                lo = mid + 1;
            } else {
                proof {
                    assert forall|i: int| mid <= i < self@.len() implies (#[trigger] self@[
                        i
                    ]).priority < priority by {
                        if i > mid {
                            assert(fires_before(self@[mid as int], self@[i]));
                        }
                    }
                }
                hi = mid;
            }
        }
        proof {
            lemma_priority_slot_is_boundary(self@, priority, lo as int);
        }
        lo
    }

    /// Registers `handler` with `priority` and returns its id: the entry
    /// goes after every registration of at least its priority, before every
    /// registration of lower priority.
    pub fn register(&mut self, priority: i32, handler: Arc<T>) -> (id: HandlerId)
        requires
            old(self).next_id() < u64::MAX,
        ensures
            id@ == old(self).next_id(),
            final(self).next_id() == old(self).next_id() + 1,
            final(self)@ == with_registration(old(self)@, old(self).next_id(), priority, handler),
    {
        proof {
            use_type_invariant(&*self);
        }
        let pos = self.slot_for(priority);
        let mut entries = self.take_entries();
        let mut ids = self.ids.resume();
        let id = ids.next();
        let entry = HandlerEntry { id, priority, handler };
        proof {
            lemma_handler_id_of(id@);
            lemma_handler_id_view_injective(id, handler_id_of(id@));
            lemma_insert_keeps_order(entries@, pos as int, entry);
            lemma_insert_keeps_distinct(entries@, pos as int, entry);
        }
        entries.insert(pos, entry);
        let mut rebuilt = HandlerTable { entries, ids };
        std::mem::swap(self, &mut rebuilt);
        id
    }

    /// Takes out the registration that carries `id`; returns whether there
    /// was one.
    pub fn unregister(&mut self, id: HandlerId) -> (removed: bool)
        ensures
            removed == has_id(old(self)@, id),
            final(self)@ == without_id(old(self)@, id),
            final(self).next_id() == old(self).next_id(),
    {
        proof {
            use_type_invariant(&*self);
        }
        match self.index_of(id) {
            Some(k) => {
                proof {
                    lemma_remove_is_without_id(self@, id, k as int);
                    lemma_remove_keeps_order(self@, k as int);
                    lemma_remove_keeps_distinct(self@, k as int);
                }
                let mut entries = self.take_entries();
                let _ = entries.remove(k);
                let mut rebuilt = HandlerTable { entries, ids: self.ids.resume() };
                std::mem::swap(self, &mut rebuilt);
                true
            },
            None => {
                proof {
                    lemma_filter_keeps_all(self@, |e: HandlerEntry<T>| e.id != id);
                }
                false
            },
        }
    }

    /// Takes out every registration; the id counter keeps its value.
    pub fn clear(&mut self)
        ensures
            final(self)@ == Seq::<HandlerEntry<T>>::empty(),
            final(self).next_id() == old(self).next_id(),
    {
        proof {
            use_type_invariant(&*self);
        }
        let _ = self.take_entries();
    }

    /// Moves the registrations out, leaving the table empty.
    fn take_entries(&mut self) -> (entries: Vec<HandlerEntry<T>>)
        ensures
            entries@ == old(self)@,
            final(self)@ == Seq::<HandlerEntry<T>>::empty(),
            final(self).next_id() == old(self).next_id(),
    {
        proof {
            use_type_invariant(&*self);
        }
        let mut entries: Vec<HandlerEntry<T>> = Vec::new();
        std::mem::swap(&mut entries, &mut self.entries);
        entries
    }

    /// A copy of this table that shares its handlers.
    pub fn duplicate(&self) -> (t: Self)
        ensures
            t@ == self@,
            t.next_id() == self.next_id(),
    {
        proof {
            use_type_invariant(self);
        }
        let n = self.entries.len();
        let mut entries: Vec<HandlerEntry<T>> = Vec::with_capacity(n);
        let mut i: usize = 0;
        while i < n
            invariant
                n == self@.len(),
                0 <= i <= n,
                entries@ == self@.take(i as int),
            decreases n - i,
        {
            let e = &self.entries[i];
            entries.push(HandlerEntry { id: e.id, priority: e.priority, handler: share(&e.handler) });
            proof {
                assert(self@.take(i as int).push(self@[i as int]) =~= self@.take(i + 1));
            }
            i = i + 1;
        }
        proof {
            assert(self@.take(n as int) =~= self@);
        }
        HandlerTable { entries, ids: self.ids.resume() }
    }

    /// The table that replaces `current` when `update` is applied to it.
    pub fn updated(current: &Arc<Self>, update: &TableUpdate<T>) -> (next: Arc<Self>)
        ensures
            update_applied(**current, *update, *next),
    {
        let mut table = current.duplicate();
        match update {
            TableUpdate::Register { priority, handler } => {
                if !table.is_exhausted() {
                    let _ = table.register(*priority, share(handler));
                }
            },
            TableUpdate::Unregister(id) => {
                let _ = table.unregister(*id);
            },
            TableUpdate::Clear => {
                table.clear();
            },
        }
        Arc::new(table)
    }

    /// Like [`HandlerTable::updated`], also leaving a second pointer to the
    /// new table in `installed`.
    pub fn updated_recording(
        current: &Arc<Self>,
        update: &TableUpdate<T>,
        installed: &mut Option<Arc<Self>>,
    ) -> (next: Arc<Self>)
        ensures
            update_applied(**current, *update, *next),
            *final(installed) == Some(next),
    {
        let next = Self::updated(current, update);
        *installed = Some(share(&next));
        next
    }
}

} // verus!
