//! The event envelope every producer writes, and the labels it is stamped with.
use vstd::prelude::*;

use crate::json::{copy_values, values_of, Json, JsonModel};
use crate::plan::copy_text;
use crate::text;
use crate::text::text_of;

verus! {

/// The envelope version this build writes.
pub const ENVELOPE_VERSION: u32 = 1;

/// Who wrote an event.
#[derive(Debug, Clone, Copy, PartialEq, Eq, Structural)]
pub enum Source {
    /// This engine.
    Pipeline,
    /// The agent-graph library.
    Agentgraph,
    /// The version-control library.
    Vcs,
}

/// What kind of event an envelope carries, as it is spelled on the wire.
#[derive(Debug, PartialEq, Eq)]
pub struct EventKind(pub String);

/// Where in a run an event sits.
#[derive(Debug, PartialEq, Eq)]
pub struct Labels {
    /// The run.
    pub run_id: Option<String>,
    /// The node.
    pub node: Option<String>,
    /// The step of the node.
    pub step: Option<String>,
    /// The persona the dispatch runs under.
    pub persona: Option<String>,
    /// Every other label a producer stamped, by name, as it stamped it.
    pub extra: Vec<(String, Json)>,
}

/// Labels as contracts speak of them.
#[verifier::ext_equal]
pub struct LabelsModel {
    pub run_id: Option<Seq<char>>,
    pub node: Option<Seq<char>>,
    pub step: Option<Seq<char>>,
    pub persona: Option<Seq<char>>,
    pub extra: Seq<(Seq<char>, JsonModel)>,
}

impl View for Labels {
    type V = LabelsModel;

    open spec fn view(&self) -> LabelsModel {
        LabelsModel {
            run_id: text_of(self.run_id),
            node: text_of(self.node),
            step: text_of(self.step),
            persona: text_of(self.persona),
            extra: values_of(self.extra@),
        }
    }
}

impl Default for Labels {
    fn default() -> (r: Self)
        ensures
            r@ == (LabelsModel {
                run_id: None,
                node: None,
                step: None,
                persona: None,
                extra: Seq::empty(),
            }),
    {
        Labels { run_id: None, node: None, step: None, persona: None, extra: Vec::new() }
    }
}

impl Clone for Labels {
    fn clone(&self) -> (r: Self)
        ensures
            r@ == self@,
    {
        Labels {
            run_id: copy_text(&self.run_id),
            node: copy_text(&self.node),
            step: copy_text(&self.step),
            persona: copy_text(&self.persona),
            extra: copy_values(&self.extra),
        }
    }
}

/// One event, as it is relayed and journalled.
#[derive(Debug, PartialEq, Eq)]
pub struct Envelope {
    /// The envelope version.
    pub v: u32,
    /// When it was written, RFC3339.
    pub ts: String,
    /// The stream it belongs to.
    pub stream: String,
    /// Its number within that stream.
    pub seq: u64,
    /// Who wrote it.
    pub source: Source,
    /// What kind of event it is.
    pub kind: EventKind,
    /// Where in the run it sits.
    pub labels: Labels,
    /// What it carries.
    pub payload: Vec<(String, Json)>,
    /// What it refers to beside it.
    pub artifacts: Vec<Json>,
}

/// The kinds of event this engine writes itself.
#[derive(Debug, Clone, Copy, PartialEq, Eq, Structural)]
pub enum PipelineKind {
    /// The run began.
    RunStarted,
    /// A node's dependencies are done.
    NodeReady,
    /// A node's dispatch began.
    NodeDispatched,
    /// An edit to the graph was committed.
    EditCommitted,
    /// A command was accepted.
    CommandAccepted,
    /// A note was shown to a party.
    NoteShown,
    /// A sweep of the worktree pools did something.
    PoolMaintenance,
    /// A run-end hook was fired.
    RunHookFired,
    /// A run-end hook ended.
    RunHookFinished,
    /// A driver let go of a paused run, so no run-end hook fired.
    RunHookWithheld,
    /// A change request opened with no body, though one was to be drafted.
    BodyNotDrafted,
}

impl PipelineKind {
    /// The word a kind is written as.
    pub open spec fn word(self) -> Seq<char> {
        match self {
            PipelineKind::RunStarted => "run-started"@,
            PipelineKind::NodeReady => "node-ready"@,
            PipelineKind::NodeDispatched => "node-dispatched"@,
            PipelineKind::EditCommitted => "edit-committed"@,
            PipelineKind::CommandAccepted => "command-accepted"@,
            PipelineKind::NoteShown => "note-shown"@,
            PipelineKind::PoolMaintenance => "pool-maintenance"@,
            PipelineKind::RunHookFired => "run-hook-fired"@,
            PipelineKind::RunHookFinished => "run-hook-finished"@,
            PipelineKind::RunHookWithheld => "run-hook-withheld"@,
            PipelineKind::BodyNotDrafted => "body-not-drafted"@,
        }
    }

    /// The word this kind is written as.
    pub fn as_str(self) -> (r: &'static str)
        ensures
            r@ == self.word(),
    {
        match self {
            PipelineKind::RunStarted => "run-started",
            PipelineKind::NodeReady => "node-ready",
            PipelineKind::NodeDispatched => "node-dispatched",
            PipelineKind::EditCommitted => "edit-committed",
            PipelineKind::CommandAccepted => "command-accepted",
            PipelineKind::NoteShown => "note-shown",
            PipelineKind::PoolMaintenance => "pool-maintenance",
            PipelineKind::RunHookFired => "run-hook-fired",
            PipelineKind::RunHookFinished => "run-hook-finished",
            PipelineKind::RunHookWithheld => "run-hook-withheld",
            PipelineKind::BodyNotDrafted => "body-not-drafted",
        }
    }
}

/// Whether an event is of one of this engine's own kinds.
pub fn is_kind(envelope: &Envelope, kind: PipelineKind) -> (r: bool)
    ensures
        r == (envelope.kind.0@ == kind.word()),
{
    text::same(envelope.kind.0.as_str(), kind.as_str())
}

/// What an enricher leaves: a key the producer stamped stands, and one it did
/// not is taken from what the enricher knows.
pub open spec fn stamped(labels: LabelsModel, known: LabelsModel) -> LabelsModel {
    LabelsModel {
        run_id: if labels.run_id is Some { labels.run_id } else { known.run_id },
        node: if labels.node is Some { labels.node } else { known.node },
        step: labels.step,
        persona: if labels.persona is Some { labels.persona } else { known.persona },
        extra: labels.extra,
    }
}

/// Say which node a session's envelope belongs to, where its producer could not.
///
/// An enricher, so it never rewrites: a key the producer stamped stands.
pub fn stamp(labels: &mut Labels, known: &Labels)
    ensures
        final(labels)@ == stamped(old(labels)@, known@),
{
    if labels.run_id.is_none() {
        labels.run_id = copy_text(&known.run_id);
    }
    if labels.node.is_none() {
        labels.node = copy_text(&known.node);
    }
    if labels.persona.is_none() {
        labels.persona = copy_text(&known.persona);
    }
}

/// Stamping a second time changes nothing.
pub proof fn law_a_stamp_stands(labels: LabelsModel, known: LabelsModel, other: LabelsModel)
    ensures
        stamped(stamped(labels, known), known) == stamped(labels, known),
        labels.run_id is Some ==> stamped(labels, other).run_id == labels.run_id,
        labels.node is Some ==> stamped(labels, other).node == labels.node,
        labels.persona is Some ==> stamped(labels, other).persona == labels.persona,
{
}

/// The words of this engine's own kinds, as every reader of a stream finds them.
pub proof fn law_the_words_of_the_kinds()
    ensures
        PipelineKind::RunStarted.word() == "run-started"@,
        PipelineKind::NodeReady.word() == "node-ready"@,
        PipelineKind::NodeDispatched.word() == "node-dispatched"@,
        PipelineKind::EditCommitted.word() == "edit-committed"@,
        PipelineKind::CommandAccepted.word() == "command-accepted"@,
        PipelineKind::NoteShown.word() == "note-shown"@,
        PipelineKind::PoolMaintenance.word() == "pool-maintenance"@,
        PipelineKind::RunHookFired.word() == "run-hook-fired"@,
        PipelineKind::RunHookFinished.word() == "run-hook-finished"@,
        PipelineKind::RunHookWithheld.word() == "run-hook-withheld"@,
        PipelineKind::BodyNotDrafted.word() == "body-not-drafted"@,
{
}

/// An enricher fills what a producer left out and nothing else: the run, the node and the
/// persona it knows, where the envelope names none. The step and the extras stay as they
/// were stamped.
pub proof fn law_an_enricher_fills_what_is_missing(labels: LabelsModel, known: LabelsModel)
    ensures
        labels.run_id is None ==> stamped(labels, known).run_id == known.run_id,
        labels.node is None ==> stamped(labels, known).node == known.node,
        labels.persona is None ==> stamped(labels, known).persona == known.persona,
        labels.run_id is Some ==> stamped(labels, known).run_id == labels.run_id,
        labels.node is Some ==> stamped(labels, known).node == labels.node,
        labels.persona is Some ==> stamped(labels, known).persona == labels.persona,
        stamped(labels, known).step == labels.step,
        stamped(labels, known).extra == labels.extra,
{
}

/// Labels are seen whole: each slot is what it was stamped with, and so is every extra.
pub proof fn law_labels_are_seen_whole(value: Labels)
    ensures
        value.run_id is None <==> value@.run_id is None,
        value.run_id matches Some(s) ==> value@.run_id == Some(s@),
        value.node is None <==> value@.node is None,
        value.node matches Some(s) ==> value@.node == Some(s@),
        value.step is None <==> value@.step is None,
        value.step matches Some(s) ==> value@.step == Some(s@),
        value.persona is None <==> value@.persona is None,
        value.persona matches Some(s) ==> value@.persona == Some(s@),
        value@.extra.len() == value.extra@.len(),
        forall|i: int|
            0 <= i < value.extra@.len() ==> #[trigger] value@.extra[i] == (
                value.extra@[i].0@,
                value.extra@[i].1@,
            ),
{
}

} // verus!
