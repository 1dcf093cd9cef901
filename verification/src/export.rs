//! The order of an export: connect, count where asked to, open the query,
//! hand the columns to the destination once, then pull batch after batch
//! and forward each, and stop when a pull gives nothing.
//!
//! The driver decides what comes next; the caller does it and tells the
//! driver how it went.

use vstd::prelude::*;

verus! {

/// Where an export stands.
#[derive(Clone, Copy, Debug, PartialEq, Eq, Structural)]
pub enum ExportStage {
    /// Nothing has happened yet.
    Start,
    /// The connection is being opened.
    Connecting,
    /// The rows are being counted.
    Counting,
    /// The query is being started.
    Opening,
    /// The columns are being handed to the destination.
    Describing,
    /// A batch is being pulled.
    Streaming,
    /// A batch is being handed to the destination.
    Forwarding,
    /// The export has ended.
    Finished,
}

/// What the caller tells the driver.
#[derive(Clone, Copy, Debug, PartialEq, Eq, Structural)]
pub enum ExportEvent {
    /// The export is to begin.
    Begin,
    /// What was asked for has been done.
    Done,
    /// The pull gave a batch.
    Batch,
    /// The pull gave nothing.
    Nothing,
    /// What was asked for has failed.
    Failed,
}

/// What the driver asks the caller to do.
#[derive(Clone, Copy, Debug, PartialEq, Eq, Structural)]
pub enum ExportAction {
    /// Open the connection.
    Connect,
    /// Count the rows of the query.
    Count,
    /// Start the query.
    Open,
    /// Hand the columns to the destination.
    SendColumns,
    /// Pull the next batch.
    Pull,
    /// Hand the batch that was pulled to the destination.
    Forward,
    /// Close the destination and end with success.
    Finish,
    /// End with a failure.
    Abort,
}

/// The stage that follows an event. An event that the stage does not
/// expect ends the export.
pub open spec fn next_stage(stage: ExportStage, with_count: bool, event: ExportEvent) -> ExportStage {
    match (stage, event) {
        (ExportStage::Start, ExportEvent::Begin) => ExportStage::Connecting,
        (ExportStage::Connecting, ExportEvent::Done) => if with_count {
            ExportStage::Counting
        } else {
            ExportStage::Opening
        },
        (ExportStage::Counting, ExportEvent::Done) => ExportStage::Opening,
        (ExportStage::Opening, ExportEvent::Done) => ExportStage::Describing,
        (ExportStage::Describing, ExportEvent::Done) => ExportStage::Streaming,
        (ExportStage::Streaming, ExportEvent::Batch) => ExportStage::Forwarding,
        (ExportStage::Forwarding, ExportEvent::Done) => ExportStage::Streaming,
        _ => ExportStage::Finished,
    }
}

/// What is to be done on entering a stage from another one.
pub open spec fn action_for(stage: ExportStage, with_count: bool, event: ExportEvent) -> ExportAction {
    match next_stage(stage, with_count, event) {
        ExportStage::Start => ExportAction::Abort,
        ExportStage::Connecting => ExportAction::Connect,
        ExportStage::Counting => ExportAction::Count,
        ExportStage::Opening => ExportAction::Open,
        ExportStage::Describing => ExportAction::SendColumns,
        ExportStage::Streaming => ExportAction::Pull,
        ExportStage::Forwarding => ExportAction::Forward,
        ExportStage::Finished => if stage == ExportStage::Streaming && event
            == ExportEvent::Nothing {
            ExportAction::Finish
        } else {
            ExportAction::Abort
        },
    }
}

/// The actions that a run of events brings about.
pub open spec fn actions_of(stage: ExportStage, with_count: bool, events: Seq<ExportEvent>) -> Seq<
    ExportAction,
>
    decreases events.len(),
{
    if events.len() == 0 {
        Seq::empty()
    } else {
        seq![action_for(stage, with_count, events[0])] + actions_of(
            next_stage(stage, with_count, events[0]),
            with_count,
            events.drop_first(),
        )
    }
}

/// How far an export has come at a stage.
pub open spec fn progress(stage: ExportStage) -> nat {
    match stage {
        ExportStage::Start => 0,
        ExportStage::Connecting => 1,
        ExportStage::Counting => 2,
        ExportStage::Opening => 3,
        ExportStage::Describing => 4,
        ExportStage::Streaming => 5,
        ExportStage::Forwarding => 5,
        ExportStage::Finished => 6,
    }
}

/// How far an export has come when an action is asked for.
pub open spec fn reached(action: ExportAction) -> nat {
    match action {
        ExportAction::Connect => 1,
        ExportAction::Count => 2,
        ExportAction::Open => 3,
        ExportAction::SendColumns => 4,
        ExportAction::Pull => 5,
        ExportAction::Forward => 5,
        ExportAction::Finish => 6,
        ExportAction::Abort => 6,
    }
}

/// A run brings about one action for each event; each action lies no
/// earlier in the order of an export than the stage at which the run
/// began, and later than it while no batch has been pulled yet.
pub proof fn lemma_actions_advance(
    stage: ExportStage,
    with_count: bool,
    events: Seq<ExportEvent>,
    k: int,
)
    requires
        0 <= k < events.len(),
    ensures
        actions_of(stage, with_count, events).len() == events.len(),
        reached(actions_of(stage, with_count, events)[k]) >= progress(stage),
        progress(stage) < 5 ==> reached(actions_of(stage, with_count, events)[k]) > progress(stage),
        stage == ExportStage::Finished ==> actions_of(stage, with_count, events)[k]
            == ExportAction::Abort,
    decreases events.len(),
{
    lemma_actions_len(stage, with_count, events);
    let later = next_stage(stage, with_count, events[0]);
    lemma_actions_len(later, with_count, events.drop_first());
    if k > 0 {
        lemma_actions_advance(later, with_count, events.drop_first(), k - 1);
    }
}

/// A run brings about one action for each event.
pub proof fn lemma_actions_len(stage: ExportStage, with_count: bool, events: Seq<ExportEvent>)
    ensures
        actions_of(stage, with_count, events).len() == events.len(),
    decreases events.len(),
{
    if events.len() > 0 {
        lemma_actions_len(
            next_stage(stage, with_count, events[0]),
            with_count,
            events.drop_first(),
        );
    }
}

/// The later of two actions of a run lies no earlier in the order of an
/// export than the earlier one, and later than it while no batch has been
/// pulled yet; and after the end of the export nothing is asked for but
/// to end.
pub proof fn lemma_actions_in_order(
    stage: ExportStage,
    with_count: bool,
    events: Seq<ExportEvent>,
    i: int,
    j: int,
)
    requires
        0 <= i < j < events.len(),
    ensures
        actions_of(stage, with_count, events).len() == events.len(),
        reached(actions_of(stage, with_count, events)[i]) <= reached(
            actions_of(stage, with_count, events)[j],
        ),
        reached(actions_of(stage, with_count, events)[i]) < 5 ==> reached(
            actions_of(stage, with_count, events)[i],
        ) < reached(actions_of(stage, with_count, events)[j]),
        reached(actions_of(stage, with_count, events)[i]) == 6 ==> actions_of(
            stage,
            with_count,
            events,
        )[j] == ExportAction::Abort,
    decreases events.len(),
{
    lemma_actions_len(stage, with_count, events);
    let later = next_stage(stage, with_count, events[0]);
    lemma_actions_len(later, with_count, events.drop_first());
    if i == 0 {
        lemma_actions_advance(later, with_count, events.drop_first(), j - 1);
    } else {
        lemma_actions_in_order(later, with_count, events.drop_first(), i - 1, j - 1);
    }
}

/// The columns are handed to the destination at most once, and before any
/// batch is pulled or forwarded.
pub proof fn lemma_columns_once_before_batches(
    with_count: bool,
    events: Seq<ExportEvent>,
    i: int,
    j: int,
)
    requires
        0 <= i < j < events.len(),
        actions_of(ExportStage::Start, with_count, events)[j] == ExportAction::SendColumns,
    ensures
        actions_of(ExportStage::Start, with_count, events)[i] != ExportAction::SendColumns,
        actions_of(ExportStage::Start, with_count, events)[i] != ExportAction::Pull,
        actions_of(ExportStage::Start, with_count, events)[i] != ExportAction::Forward,
{
    lemma_actions_in_order(ExportStage::Start, with_count, events, i, j);
}

/// Once the export has ended, with success or without, no batch is pulled
/// or forwarded any more: nothing is asked for but to end.
pub proof fn lemma_nothing_after_the_end(
    with_count: bool,
    events: Seq<ExportEvent>,
    i: int,
    j: int,
)
    requires
        0 <= i < j < events.len(),
        actions_of(ExportStage::Start, with_count, events)[i] == ExportAction::Finish
            || actions_of(ExportStage::Start, with_count, events)[i] == ExportAction::Abort,
    ensures
        actions_of(ExportStage::Start, with_count, events)[j] == ExportAction::Abort,
{
    lemma_actions_in_order(ExportStage::Start, with_count, events, i, j);
}

/// The rows are counted only where the export was asked to count them.
pub proof fn lemma_count_only_on_request(with_count: bool, events: Seq<ExportEvent>, k: int)
    requires
        0 <= k < events.len(),
        actions_of(ExportStage::Start, with_count, events)[k] == ExportAction::Count,
    ensures
        with_count,
{
    lemma_count_from(ExportStage::Start, with_count, events, k);
}

/// From whatever stage a run begins, the rows are counted only where the
/// export was asked to count them.
pub proof fn lemma_count_from(
    stage: ExportStage,
    with_count: bool,
    events: Seq<ExportEvent>,
    k: int,
)
    requires
        0 <= k < events.len(),
        actions_of(stage, with_count, events)[k] == ExportAction::Count,
    ensures
        with_count,
    decreases events.len(),
{
    let later = next_stage(stage, with_count, events[0]);
    lemma_actions_len(later, with_count, events.drop_first());
    if k > 0 {
        lemma_count_from(later, with_count, events.drop_first(), k - 1);
    }
}

/// The driver of an export.
#[derive(Clone, Copy, Debug, PartialEq, Eq)]
pub struct ExportDriver {
    stage: ExportStage,
    with_count: bool,
}

impl ExportDriver {
    /// The stage at which the export stands.
    pub closed spec fn stage(&self) -> ExportStage {
        self.stage
    }

    /// Whether the rows are counted before the query runs.
    pub closed spec fn with_count(&self) -> bool {
        self.with_count
    }

    /// The driver of an export that has not begun.
    pub fn new(with_count: bool) -> (r: ExportDriver)
        ensures
            r.stage() == ExportStage::Start,
            r.with_count() == with_count,
    {
        ExportDriver { stage: ExportStage::Start, with_count }
    }

    /// The stage at which the export stands.
    pub fn current_stage(&self) -> (r: ExportStage)
        ensures
            r == self.stage(),
    {
        self.stage
    }

    /// Takes note of an event and tells what is to be done next.
    pub fn step(&mut self, event: ExportEvent) -> (r: ExportAction)
        ensures
            final(self).with_count() == old(self).with_count(),
            final(self).stage() == next_stage(old(self).stage(), old(self).with_count(), event),
            r == action_for(old(self).stage(), old(self).with_count(), event),
    {
        let (stage, action) = match (self.stage, event) {
            (ExportStage::Start, ExportEvent::Begin) => (
                ExportStage::Connecting,
                ExportAction::Connect,
            ),
            (ExportStage::Connecting, ExportEvent::Done) => if self.with_count {
                (ExportStage::Counting, ExportAction::Count)
            } else {
                (ExportStage::Opening, ExportAction::Open)
            },
            (ExportStage::Counting, ExportEvent::Done) => (ExportStage::Opening, ExportAction::Open),
            (ExportStage::Opening, ExportEvent::Done) => (
                ExportStage::Describing,
                ExportAction::SendColumns,
            ),
            (ExportStage::Describing, ExportEvent::Done) => (
                ExportStage::Streaming,
                ExportAction::Pull,
            ),
            (ExportStage::Streaming, ExportEvent::Batch) => (
                ExportStage::Forwarding,
                ExportAction::Forward,
            ),
            (ExportStage::Forwarding, ExportEvent::Done) => (
                ExportStage::Streaming,
                ExportAction::Pull,
            ),
            (ExportStage::Streaming, ExportEvent::Nothing) => (
                ExportStage::Finished,
                ExportAction::Finish,
            ),
            _ => (ExportStage::Finished, ExportAction::Abort),
        };
        self.stage = stage;
        action
    }
}

} // verus!
