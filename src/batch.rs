//! The probe batch protocol: starting a batch, the decisions a unit takes
//! when it finishes, and the laws of the events a batch emits.

use vstd::prelude::*;
use crate::manifest::LoadedPlugin;
use crate::probe::{classify, diagnostic_of, Diagnostic, ProbeOutcome, ProbeOutput};
use crate::selector::{
    ids_of, lemma_selection_in_bounds, request_of, resolve_batch_id, select_targets, selection,
    texts_of,
};
use crate::text::{normalized_token, opt_text};

verus! {

/// The registry and the read-only context handed to every probe.
pub struct AppState {
    pub plugins: Vec<LoadedPlugin>,
    pub app_data_dir: String,
    pub app_version: String,
}

/// Announces a batch: its id and the ids of its targets.
#[derive(Debug, Clone)]
pub struct ProbeBatchStarted {
    pub batch_id: String,
    pub plugin_ids: Vec<String>,
}

/// One plugin's result within a batch.
#[derive(Debug, Clone)]
pub struct ProbeResult {
    pub batch_id: String,
    pub output: ProbeOutput,
}

/// Announces that every target of a batch has finished.
#[derive(Debug, Clone)]
pub struct ProbeBatchComplete {
    pub batch_id: String,
}

/// A resolved batch, ready to be dispatched.
pub struct BatchStart {
    /// What the request returns to its caller.
    pub started: ProbeBatchStarted,
    /// Registry positions of the targets, in dispatch order.
    pub targets: Vec<usize>,
    /// The batch is empty: its completion is emitted at once and no unit runs.
    pub complete_now: bool,
}

/// What a unit does once its probe has ended.
#[derive(Debug, Clone, Copy, PartialEq, Eq, Structural)]
pub struct UnitActions {
    /// Emit the probe's result.
    pub emit_result: bool,
    /// Emit the batch's completion: this unit finished last.
    pub emit_complete: bool,
    /// The level at which the outcome is logged.
    pub diagnostic: Diagnostic,
}

/// An event a batch emits after its start.
#[derive(Debug, Clone, Copy, PartialEq, Eq, Structural)]
pub enum BatchEvent {
    Result,
    Complete,
}

/// The ids of the plugins at the given registry positions.
pub open spec fn ids_at(registry: Seq<LoadedPlugin>, targets: Seq<usize>) -> Seq<Seq<char>> {
    targets.map_values(|j: usize| registry[j as int].manifest.id@)
}

/// Every target is a registry position.
pub open spec fn targets_in(registry: Seq<LoadedPlugin>, targets: Seq<usize>) -> bool {
    forall|t: int| 0 <= t < targets.len() ==> #[trigger] targets[t] < registry.len()
}

/// Resolves a request against the registry: the batch id, the targets, and
/// whether the batch completes at once.
pub fn start_probe_batch(
    state: &AppState,
    batch_id: Option<String>,
    plugin_ids: Option<Vec<String>>,
) -> (r: BatchStart)
    ensures
        r.targets@ == selection(ids_of(state.plugins@), request_of(plugin_ids)),
        texts_of(r.started.plugin_ids@) == ids_at(state.plugins@, r.targets@),
        match normalized_token(opt_text(batch_id)) {
            Some(t) => r.started.batch_id@ == t,
            None => r.started.batch_id@.len() == 36,
        },
        r.complete_now == (r.targets@.len() == 0),
{
    let id = resolve_batch_id(batch_id);
    let targets = select_targets(&state.plugins, &plugin_ids);
    let n: usize = state.plugins.len();
    proof {
        lemma_selection_in_bounds(ids_of(state.plugins@), request_of(plugin_ids));
    }
    let ghost want = ids_at(state.plugins@, targets@);
    let mut names: Vec<String> = Vec::new();
    let mut i: usize = 0;
    while i < targets.len()
        invariant
            i <= targets@.len(),
            targets@ == selection(ids_of(state.plugins@), request_of(plugin_ids)),
            targets_in(state.plugins@, targets@),
            want == ids_at(state.plugins@, targets@),
            texts_of(names@) =~= want.take(i as int),
        decreases targets@.len() - i,
    {
        let name = state.plugins[targets[i]].manifest.id.clone();
        let ghost before = names@;
        names.push(name);
        assert(texts_of(names@) =~= texts_of(before).push(name@));
        i = i + 1;
        assert(want.take(i as int) =~= want.take(i - 1).push(name@));
    }
    assert(want.take(targets@.len() as int) =~= want);
    let complete_now = targets.len() == 0;
    BatchStart { started: ProbeBatchStarted { batch_id: id, plugin_ids: names }, targets, complete_now }
}

/// What a unit does when its probe has ended, given the countdown's value
/// just before its own decrement.
pub fn finish_unit(previous_remaining: usize, outcome: &ProbeOutcome) -> (r: UnitActions)
    requires
        previous_remaining >= 1,
    ensures
        r.emit_result == (outcome is Finished),
        r.emit_complete == (previous_remaining == 1),
        r.diagnostic == diagnostic_of(*outcome),
{
    let emit_result = match outcome {
        ProbeOutcome::Finished(_) => true,
        ProbeOutcome::Crashed => false,
    };
    UnitActions { emit_result, emit_complete: previous_remaining == 1, diagnostic: classify(outcome) }
}

/// The events a unit emits: its result unless it crashed, then the
/// completion if its decrement took the countdown from one to zero.
pub open spec fn unit_events(previous_remaining: int, crashed: bool) -> Seq<BatchEvent> {
    (if crashed {
        Seq::empty()
    } else {
        seq![BatchEvent::Result]
    }) + (if previous_remaining == 1 {
        seq![BatchEvent::Complete]
    } else {
        Seq::empty()
    })
}

/// The events of the units of a batch of `n` targets, `crashed` listing
/// in finishing order whether each faulted. The countdown starts at `n`
/// and each unit's atomic decrement sees the value that the previous one
/// left.
pub open spec fn units_events(n: int, crashed: Seq<bool>) -> Seq<BatchEvent>
    decreases crashed.len(),
{
    if crashed.len() == 0 {
        Seq::empty()
    } else {
        units_events(n, crashed.drop_last()) + unit_events(
            n - (crashed.len() - 1),
            crashed.last(),
        )
    }
}

/// All events of a batch of `n` targets: an empty batch completes at start.
pub open spec fn batch_events(n: int, crashed: Seq<bool>) -> Seq<BatchEvent> {
    (if n == 0 {
        seq![BatchEvent::Complete]
    } else {
        Seq::empty()
    }) + units_events(n, crashed)
}

/// How often `e` occurs in `s`.
pub open spec fn count_of(s: Seq<BatchEvent>, e: BatchEvent) -> nat
    decreases s.len(),
{
    if s.len() == 0 {
        0
    } else {
        count_of(s.drop_last(), e) + if s.last() == e {
            1nat
        } else {
            0nat
        }
    }
}

/// How many units finished without a fault.
pub open spec fn finished_count(crashed: Seq<bool>) -> nat
    decreases crashed.len(),
{
    if crashed.len() == 0 {
        0
    } else {
        finished_count(crashed.drop_last()) + if crashed.last() {
            0nat
        } else {
            1nat
        }
    }
}

proof fn lemma_count_concat(a: Seq<BatchEvent>, b: Seq<BatchEvent>, e: BatchEvent)
    ensures
        count_of(a + b, e) == count_of(a, e) + count_of(b, e),
    decreases b.len(),
{
    if b.len() > 0 {
        lemma_count_concat(a, b.drop_last(), e);
        assert((a + b).drop_last() =~= a + b.drop_last());
    }
}

proof fn lemma_count_single(x: BatchEvent)
    ensures
        count_of(seq![x], BatchEvent::Result) == if x == BatchEvent::Result {
            1nat
        } else {
            0nat
        },
        count_of(seq![x], BatchEvent::Complete) == if x == BatchEvent::Complete {
            1nat
        } else {
            0nat
        },
{
    let s = seq![x];
    assert(s.drop_last() =~= Seq::<BatchEvent>::empty());
    assert(s.last() == x);
    assert(count_of(Seq::<BatchEvent>::empty(), BatchEvent::Complete) == 0);
    assert(count_of(Seq::<BatchEvent>::empty(), BatchEvent::Result) == 0);
}

proof fn lemma_unit_counts(p: int, crashed: bool)
    ensures
        count_of(unit_events(p, crashed), BatchEvent::Result) == if crashed {
            0nat
        } else {
            1nat
        },
        count_of(unit_events(p, crashed), BatchEvent::Complete) == if p == 1 {
            1nat
        } else {
            0nat
        },
{
    let a: Seq<BatchEvent> = if crashed {
        Seq::empty()
    } else {
        seq![BatchEvent::Result]
    };
    let b: Seq<BatchEvent> = if p == 1 {
        seq![BatchEvent::Complete]
    } else {
        Seq::empty()
    };
    lemma_count_concat(a, b, BatchEvent::Result);
    lemma_count_concat(a, b, BatchEvent::Complete);
    lemma_count_single(BatchEvent::Result);
    lemma_count_single(BatchEvent::Complete);
    assert(count_of(Seq::<BatchEvent>::empty(), BatchEvent::Complete) == 0);
    assert(count_of(Seq::<BatchEvent>::empty(), BatchEvent::Result) == 0);
}

proof fn lemma_units_counts(n: int, crashed: Seq<bool>)
    requires
        crashed.len() <= n,
        n >= 1,
    ensures
        count_of(units_events(n, crashed), BatchEvent::Result) == finished_count(crashed),
        count_of(units_events(n, crashed), BatchEvent::Complete) == if crashed.len() == n {
            1nat
        } else {
            0nat
        },
    decreases crashed.len(),
{
    if crashed.len() > 0 {
        let prev = units_events(n, crashed.drop_last());
        let last = unit_events(n - (crashed.len() - 1), crashed.last());
        lemma_units_counts(n, crashed.drop_last());
        lemma_unit_counts(n - (crashed.len() - 1), crashed.last());
        lemma_count_concat(prev, last, BatchEvent::Result);
        lemma_count_concat(prev, last, BatchEvent::Complete);
    }
}

/// A batch with no targets emits its completion and no result.
pub proof fn lemma_empty_batch_completes()
    ensures
        batch_events(0, Seq::empty()) == seq![BatchEvent::Complete],
        count_of(batch_events(0, Seq::empty()), BatchEvent::Complete) == 1,
        count_of(batch_events(0, Seq::empty()), BatchEvent::Result) == 0,
{
    let s = seq![BatchEvent::Complete];
    assert(batch_events(0, Seq::empty()) =~= s);
    assert(s.drop_last() =~= Seq::<BatchEvent>::empty());
    assert(s.last() == BatchEvent::Complete);
    assert(count_of(Seq::<BatchEvent>::empty(), BatchEvent::Complete) == 0);
    assert(count_of(Seq::<BatchEvent>::empty(), BatchEvent::Result) == 0);
}

/// Once all `n` units of a batch have finished, in any order and whichever
/// of them crashed: the countdown took `n` decrements to reach zero, the
/// completion was emitted exactly once and as the very last event, and
/// exactly one result was emitted for each unit that did not crash.
pub proof fn lemma_batch_completes_once(n: int, crashed: Seq<bool>)
    requires
        crashed.len() == n,
    ensures
        count_of(batch_events(n, crashed), BatchEvent::Complete) == 1,
        batch_events(n, crashed).last() == BatchEvent::Complete,
        count_of(batch_events(n, crashed), BatchEvent::Result) == finished_count(crashed),
{
    if n == 0 {
        assert(crashed =~= Seq::<bool>::empty());
        lemma_empty_batch_completes();
    } else {
        lemma_units_counts(n, crashed);
        assert(batch_events(n, crashed) =~= units_events(n, crashed));
        let p = n - (crashed.len() - 1);
        assert(p == 1);
        let u = unit_events(p, crashed.last());
        assert(u.last() == BatchEvent::Complete);
    }
}

/// Before the last of the `n` units of a batch has finished, no completion
/// has been emitted.
pub proof fn lemma_no_early_completion(n: int, crashed: Seq<bool>)
    requires
        0 <= crashed.len() < n,
    ensures
        count_of(batch_events(n, crashed), BatchEvent::Complete) == 0,
{
    lemma_units_counts(n, crashed);
    assert(batch_events(n, crashed) =~= units_events(n, crashed));
}

} // verus!
