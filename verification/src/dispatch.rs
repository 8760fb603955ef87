//! The decisions of a dispatch: which handler of a snapshot runs next, and
//! when a panic is reported. Running a handler (and catching its panic) is
//! left to the caller, which hands back how each run ended.

use vstd::prelude::*;

use crate::handler_id::HandlerId;

verus! {

/// How a handler's run ended.
#[derive(Clone, Copy, PartialEq, Eq, Debug, Structural)]
pub enum Outcome {
    /// The handler returned.
    Completed,
    /// The handler panicked.
    Panicked,
}

/// What a dispatch asks its caller to do next.
#[derive(Clone, Copy, PartialEq, Eq, Debug, Structural)]
pub enum Step {
    /// Run the handler at this index of the snapshot.
    Run(usize),
    /// Report to the panic callback that the handler at this index panicked.
    ReportPanic(usize),
    /// Every handler has run.
    Finished,
}

/// One step of a dispatch over `total` handlers: `next` is the index of the
/// next handler to run, `running` whether the caller is running one; the
/// result is the new `next`, the new `running` and the step asked for.
pub open spec fn dispatch_step(total: nat, next: nat, running: bool, outcome: Option<Outcome>) -> (
    nat,
    bool,
    Step,
) {
    if running && outcome == Some(Outcome::Panicked) {
        (next, false, Step::ReportPanic((next - 1) as usize))
    } else if next < total {
        (next + 1, true, Step::Run(next as usize))
    } else {
        (next, false, Step::Finished)
    }
}

/// The steps a dispatch asks for when fed `inputs` one after the other.
pub open spec fn dispatch_feed(
    total: nat,
    next: nat,
    running: bool,
    inputs: Seq<Option<Outcome>>,
) -> Seq<Step>
    decreases inputs.len(),
{
    if inputs.len() == 0 {
        Seq::empty()
    } else {
        let (next2, running2, step) = dispatch_step(total, next, running, inputs[0]);
        seq![step] + dispatch_feed(total, next2, running2, inputs.drop_first())
    }
}

/// What the caller hands back when the handlers from index `i` on end with
/// `outcomes`: each outcome, and after a reported panic nothing.
pub open spec fn dispatch_inputs_from(outcomes: Seq<Outcome>, i: nat) -> Seq<Option<Outcome>>
    decreases outcomes.len() - i,
{
    if i >= outcomes.len() {
        Seq::empty()
    } else {
        seq![Some(outcomes[i as int])] + (if outcomes[i as int] == Outcome::Panicked {
            seq![None]
        } else {
            Seq::empty()
        }) + dispatch_inputs_from(outcomes, i + 1)
    }
}

/// A whole dispatch from the handlers at index `i` on: each handler runs
/// once, in order, its panic (if any) is reported before the next one runs,
/// and the dispatch then finishes.
pub open spec fn dispatch_trace_from(outcomes: Seq<Outcome>, i: nat) -> Seq<Step>
    decreases outcomes.len() - i,
{
    if i >= outcomes.len() {
        seq![Step::Finished]
    } else {
        seq![Step::Run(i as usize)] + (if outcomes[i as int] == Outcome::Panicked {
            seq![Step::ReportPanic(i as usize)]
        } else {
            Seq::empty()
        }) + dispatch_trace_from(outcomes, i + 1)
    }
}

/// Feeding a sequence of inputs one at a time.
proof fn lemma_feed_cons(
    total: nat,
    next: nat,
    running: bool,
    first: Option<Outcome>,
    rest: Seq<Option<Outcome>>,
)
    ensures
        dispatch_feed(total, next, running, seq![first] + rest) == ({
            let (next2, running2, step) = dispatch_step(total, next, running, first);
            seq![step] + dispatch_feed(total, next2, running2, rest)
        }),
{
    assert((seq![first] + rest).drop_first() =~= rest);
}

/// After the handler at index `i` was asked to run, the rest of the dispatch
/// follows the trace.
proof fn lemma_feed_after_run(outcomes: Seq<Outcome>, i: nat)
    requires
        i < outcomes.len(),
        outcomes.len() <= usize::MAX,
    ensures
        dispatch_feed(outcomes.len(), i + 1, true, dispatch_inputs_from(outcomes, i)) == (if outcomes[i as int] == Outcome::Panicked {
            seq![Step::ReportPanic(i as usize)]
        } else {
            Seq::<Step>::empty()
        }) + dispatch_trace_from(outcomes, i + 1),
    decreases outcomes.len() - i,
{
    let n = outcomes.len();
    let rest = dispatch_inputs_from(outcomes, i + 1);
    let o = outcomes[i as int];
    if o == Outcome::Panicked {
        assert(dispatch_inputs_from(outcomes, i) =~= seq![Some(o)] + (seq![None] + rest));
        lemma_feed_cons(n, i + 1, true, Some(o), seq![None] + rest);
        lemma_feed_cons(n, i + 1, false, None, rest);
    } else {
        assert(dispatch_inputs_from(outcomes, i) =~= seq![Some(o)] + rest);
        lemma_feed_cons(n, i + 1, true, Some(o), rest);
    }
    if i + 1 < n {
        lemma_feed_after_run(outcomes, i + 1);
        let tail = if outcomes[(i + 1) as int] == Outcome::Panicked {
            seq![Step::ReportPanic((i + 1) as usize)]
        } else {
            Seq::<Step>::empty()
        };
        assert(dispatch_trace_from(outcomes, i + 1) =~= seq![Step::Run((i + 1) as usize)] + tail
            + dispatch_trace_from(outcomes, i + 2));
    } else {
        assert(rest =~= Seq::<Option<Outcome>>::empty());
    }
    if o == Outcome::Panicked {
        assert(dispatch_feed(n, i + 1, true, dispatch_inputs_from(outcomes, i)) =~= seq![
            Step::ReportPanic(i as usize),
        ] + dispatch_trace_from(outcomes, i + 1));
    } else {
        assert(dispatch_feed(n, i + 1, true, dispatch_inputs_from(outcomes, i)) =~= Seq::<
            Step,
        >::empty() + dispatch_trace_from(outcomes, i + 1));
    }
}

/// The dispatch law: fed with the outcomes of the handlers of a snapshot,
/// a dispatch asks to run every handler exactly once, in snapshot order,
/// asks to report each panic right after the handler that panicked and
/// before the next one runs, and then finishes.
pub proof fn law_dispatch_runs_each_handler_once_in_order(outcomes: Seq<Outcome>)
    requires
        outcomes.len() <= usize::MAX,
    ensures
        dispatch_feed(outcomes.len(), 0, false, seq![None] + dispatch_inputs_from(outcomes, 0))
            == dispatch_trace_from(outcomes, 0),
{
    let n = outcomes.len();
    lemma_feed_cons(n, 0, false, None, dispatch_inputs_from(outcomes, 0));
    if n > 0 {
        lemma_feed_after_run(outcomes, 0);
        let tail = if outcomes[0] == Outcome::Panicked {
            seq![Step::ReportPanic(0)]
        } else {
            Seq::<Step>::empty()
        };
        assert(dispatch_trace_from(outcomes, 0) =~= seq![Step::Run(0)] + (tail
            + dispatch_trace_from(outcomes, 1)));
    } else {
        assert(dispatch_inputs_from(outcomes, 0) =~= Seq::<Option<Outcome>>::empty());
    }
}

/// A dispatch over the handlers of one snapshot.
pub struct Dispatch {
    total: usize,
    next: usize,
    running: bool,
}

impl Dispatch {
    /// The number of handlers.
    pub closed spec fn total(&self) -> nat {
        self.total as nat
    }

    /// The index of the next handler to run.
    pub closed spec fn next_index(&self) -> nat {
        self.next as nat
    }

    /// `true` between asking to run a handler and being told how it ended.
    pub closed spec fn running(&self) -> bool {
        self.running
    }

    /// The index of the next handler never passes the number of handlers,
    /// and a running handler has an index.
    pub closed spec fn well_formed(&self) -> bool {
        &&& self.next <= self.total
        &&& self.running ==> self.next >= 1
    }

    /// A dispatch over `total` handlers that has not started.
    pub fn new(total: usize) -> (d: Self)
        ensures
            d.well_formed(),
            d.total() == total,
            d.next_index() == 0,
            !d.running(),
    {
        Dispatch { total, next: 0, running: false }
    }

    /// `true` while a handler is running: the next call of
    /// [`Dispatch::step`] must say how it ended.
    pub fn is_running(&self) -> (b: bool)
        ensures
            b == self.running(),
    {
        self.running
    }

    /// Takes how the handler asked for last ended (`Some`, exactly while one
    /// is running; `None` at the start and after a reported panic) and says
    /// what to do next.
    pub fn step(&mut self, outcome: Option<Outcome>) -> (step: Step)
        requires
            old(self).well_formed(),
            old(self).running() == (outcome is Some),
        ensures
            ({
                let (next2, running2, s) = dispatch_step(
                    old(self).total(),
                    old(self).next_index(),
                    old(self).running(),
                    outcome,
                );
                &&& step == s
                &&& final(self).next_index() == next2
                &&& final(self).running() == running2
            }),
            final(self).well_formed(),
            final(self).total() == old(self).total(),
    {
        if self.running && outcome == Some(Outcome::Panicked) {
            self.running = false;
            Step::ReportPanic(self.next - 1)
        } else if self.next < self.total {
            let index = self.next;
            self.next = self.next + 1;
            self.running = true;
            Step::Run(index)
        } else {
            self.running = false;
            Step::Finished
        }
    }
}

/// The ids, of `ids`, whose outcome (at the same position of `outcomes`)
/// is a panic, in their order.
pub open spec fn panicked_ids(ids: Seq<HandlerId>, outcomes: Seq<Outcome>) -> Seq<HandlerId>
    decreases ids.len(),
{
    if ids.len() == 0 || outcomes.len() == 0 {
        Seq::empty()
    } else {
        let earlier = panicked_ids(ids.drop_last(), outcomes.drop_last());
        if outcomes.last() == Outcome::Panicked {
            earlier.push(ids.last())
        } else {
            earlier
        }
    }
}

/// `reported` is `ids` taken at the strictly ascending `positions`, which
/// are exactly the positions whose outcome is a panic.
pub open spec fn reports_panicked_at(
    ids: Seq<HandlerId>,
    outcomes: Seq<Outcome>,
    reported: Seq<HandlerId>,
    positions: Seq<int>,
) -> bool {
    &&& positions.len() == reported.len()
    &&& forall|k: int|
        0 <= k < positions.len() ==> 0 <= #[trigger] positions[k] < ids.len() && outcomes[positions[k]]
            == Outcome::Panicked && reported[k] == ids[positions[k]]
    &&& forall|k: int, l: int| 0 <= k < l < positions.len() ==> positions[k] < positions[l]
    &&& forall|i: int|
        0 <= i < ids.len() && #[trigger] outcomes[i] == Outcome::Panicked ==> exists|k: int|
            0 <= k < positions.len() && #[trigger] positions[k] == i
}

/// Panic attribution: of handlers `ids` run with `outcomes` (position by
/// position), the ids reported as panicked are, in dispatch order, exactly
/// those at the positions whose run panicked: every panicking handler is
/// reported once, whatever the outcomes beside it, and no other.
pub proof fn law_panicked_ids_are_the_panicked_positions(
    ids: Seq<HandlerId>,
    outcomes: Seq<Outcome>,
)
    requires
        ids.len() == outcomes.len(),
    ensures
        exists|positions: Seq<int>|
            reports_panicked_at(ids, outcomes, panicked_ids(ids, outcomes), positions),
    decreases ids.len(),
{
    let reported = panicked_ids(ids, outcomes);
    if ids.len() == 0 {
        assert(reports_panicked_at(ids, outcomes, reported, Seq::<int>::empty()));
    } else {
        let n = ids.len() as int;
        let ids0 = ids.drop_last();
        let outcomes0 = outcomes.drop_last();
        let reported0 = panicked_ids(ids0, outcomes0);
        law_panicked_ids_are_the_panicked_positions(ids0, outcomes0);
        let p0 = choose|p: Seq<int>| reports_panicked_at(ids0, outcomes0, reported0, p);
        if outcomes.last() == Outcome::Panicked {
            let p = p0.push(n - 1);
            assert forall|i: int|
                0 <= i < ids.len() && #[trigger] outcomes[i] == Outcome::Panicked implies exists|k: int|
                0 <= k < p.len() && #[trigger] p[k] == i by {
                if i < n - 1 {
                    assert(outcomes0[i] == Outcome::Panicked);
                    let k = choose|k: int| 0 <= k < p0.len() && #[trigger] p0[k] == i;
                    assert(p[k] == i);
                } else {
                    assert(p[p.len() - 1] == i);
                }
            }
            assert forall|k: int| 0 <= k < p.len() implies 0 <= #[trigger] p[k] < ids.len()
                && outcomes[p[k]] == Outcome::Panicked && reported[k] == ids[p[k]] by {
                if k < p0.len() {
                    assert(p0[k] == p[k]);
                    assert(outcomes0[p0[k]] == outcomes[p[k]]);
                }
            }
            assert(reports_panicked_at(ids, outcomes, reported, p));
        } else {
            assert forall|i: int|
                0 <= i < ids.len() && #[trigger] outcomes[i] == Outcome::Panicked implies exists|k: int|
                0 <= k < p0.len() && #[trigger] p0[k] == i by {
                assert(i < n - 1);
                assert(outcomes0[i] == Outcome::Panicked);
            }
            assert forall|k: int| 0 <= k < p0.len() implies 0 <= #[trigger] p0[k] < ids.len()
                && outcomes[p0[k]] == Outcome::Panicked && reported[k] == ids[p0[k]] by {
                assert(outcomes0[p0[k]] == outcomes[p0[k]]);
            }
            assert(reports_panicked_at(ids, outcomes, reported, p0));
        }
    }
}

/// The handlers to report as panicked after running the handlers `ids`
/// with `outcomes` (position by position): those whose run panicked, in
/// dispatch order.
pub fn panicked_handlers(ids: &Vec<HandlerId>, outcomes: &Vec<Outcome>) -> (reported: Vec<HandlerId>)
    requires
        ids.len() == outcomes.len(),
    ensures
        reported@ == panicked_ids(ids@, outcomes@),
        exists|positions: Seq<int>| reports_panicked_at(ids@, outcomes@, reported@, positions),
{
    let mut reported: Vec<HandlerId> = Vec::new();
    let mut i: usize = 0;
    while i < ids.len()
        invariant
            i <= ids.len(),
            ids.len() == outcomes.len(),
            reported@ == panicked_ids(ids@.take(i as int), outcomes@.take(i as int)),
        decreases ids.len() - i,
    {
        proof {
            let next_ids = ids@.take(i + 1);
            let next_outcomes = outcomes@.take(i + 1);
            assert(next_ids.drop_last() =~= ids@.take(i as int));
            assert(next_outcomes.drop_last() =~= outcomes@.take(i as int));
        }
        if outcomes[i] == Outcome::Panicked {
            reported.push(ids[i]);
        }
        i = i + 1;
    }
    proof {
        assert(ids@.take(i as int) =~= ids@);
        assert(outcomes@.take(i as int) =~= outcomes@);
        law_panicked_ids_are_the_panicked_positions(ids@, outcomes@);
    }
    reported
}

} // verus!
