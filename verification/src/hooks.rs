//! The two commands a run fires once when it ends: a success hook when every node
//! settled `done`, and a failure hook when it ended any other way.
//!
//! [`judge`] is the rule over a run's graph, [`let_go`] and [`stopped`] are the only two
//! moments it is asked, and what a hook's process came to is [`Ran`]. Nothing here
//! writes a node status, a result or a settlement, which is what keeps a hook from
//! changing any of them.
use vstd::prelude::*;

use crate::event::{is_kind, Envelope, PipelineKind};
use crate::graph::{all_done, lemma_over_values, Graph, StatusModel, Statuses};
use crate::json;
use crate::json::{field_in, text_in, Json};
use crate::ledger;
use crate::ledger::{joined, lossy_text};
use crate::names::NameMap;
use crate::plan::{node_models, NodeModel};
use crate::record;
use crate::status::NodeStatus;
use crate::text;
use crate::text::{blank, dec, dec_int, lines, one_lined, text_of, texts, trim};

verus! {

/// The version of the document a hook reads on its stdin.
pub const DOCUMENT_VERSION: u64 = 1;

/// How many of a hook's last lines of output a view repeats.
pub const RESULTS_OUTPUT_LINES: usize = 20;

/// The most of a hook's log a view reads to find those lines.
pub const MAX_TAIL_BYTES: u64 = 65536;

/// How long a hook may run where the launch says nothing, in seconds.
pub const DEFAULT_HOOK_TIMEOUT_SECONDS: u64 = 600;

/// The environment variable naming which hook is running.
pub const HOOK_ENV: &'static str = "ONEPIPELINE_HOOK";

/// The environment variable naming the run a hook fired for.
pub const RUN_ID_ENV: &'static str = "ONEPIPELINE_RUN_ID";

/// The environment variable naming that run's own directory.
pub const RUN_ROOT_ENV: &'static str = "ONEPIPELINE_RUN_ROOT";

/// The settlement a driver lets go at when the run is paused rather than ended.
pub const PAUSED: &'static str = "awaiting-planner";

/// One of the two run-end hooks.
#[derive(Debug, Clone, Copy, PartialEq, Eq, Structural)]
pub enum Hook {
    /// Every node settled `done`.
    Success,
    /// The run ended any other way.
    Failure,
}

impl Hook {
    /// The word a hook is written as.
    pub open spec fn word(self) -> Seq<char> {
        match self {
            Hook::Success => "success"@,
            Hook::Failure => "failure"@,
        }
    }

    /// The hook a word stands for.
    pub open spec fn read(word: Seq<char>) -> Option<Hook> {
        if word == "success"@ {
            Some(Hook::Success)
        } else if word == "failure"@ {
            Some(Hook::Failure)
        } else {
            None
        }
    }

    /// The word this hook is written as.
    pub fn as_str(self) -> (r: &'static str)
        ensures
            r@ == self.word(),
    {
        match self {
            Hook::Success => "success",
            Hook::Failure => "failure",
        }
    }

    /// The hook a record names, when it names one.
    pub fn parse(word: &str) -> (r: Option<Hook>)
        ensures
            r == Hook::read(word@),
    {
        if text::same(word, "success") {
            Some(Hook::Success)
        } else if text::same(word, "failure") {
            Some(Hook::Failure)
        } else {
            None
        }
    }

    /// The command a launch names for this hook.
    pub fn command<'a>(self, success: &'a Option<String>, failure: &'a Option<String>) -> (r:
        &'a Option<String>)
        ensures
            *r == (match self {
                Hook::Success => *success,
                Hook::Failure => *failure,
            }),
    {
        match self {
            Hook::Success => success,
            Hook::Failure => failure,
        }
    }
}

/// A hook reads back as the one that was written.
pub proof fn law_a_hook_round_trips(hook: Hook)
    ensures
        Hook::read(hook.word()) == Some(hook),
{
    reveal_strlit("success");
    reveal_strlit("failure");
    assert("success"@[0] != "failure"@[0]);
}

/// Why the failure hook fired.
#[derive(Debug, Clone, Copy, PartialEq, Eq, Structural)]
pub enum ReasonKind {
    /// The graph holds a `failed` or `skipped` node.
    Nodes,
    /// The graph holds a node that is not `done`, none failed or skipped, and no
    /// decision is outstanding.
    Unfinished,
    /// A stop established a clean teardown.
    Stopped,
}

impl ReasonKind {
    /// The word a reason is written as.
    pub open spec fn word(self) -> Seq<char> {
        match self {
            ReasonKind::Nodes => "nodes"@,
            ReasonKind::Unfinished => "unfinished"@,
            ReasonKind::Stopped => "stopped"@,
        }
    }

    /// The word this reason is written as.
    pub fn as_str(self) -> (r: &'static str)
        ensures
            r@ == self.word(),
    {
        match self {
            ReasonKind::Nodes => "nodes",
            ReasonKind::Unfinished => "unfinished",
            ReasonKind::Stopped => "stopped",
        }
    }
}

/// One node that was not `done` when a hook was judged.
#[derive(Debug, PartialEq, Eq)]
pub struct Unsettled {
    /// The node.
    pub id: String,
    /// Where it stood.
    pub status: NodeStatus,
    /// What its dispatch came to, where it settled.
    pub outcome: Option<String>,
}

/// A node that was not `done`, as contracts speak of it.
#[verifier::ext_equal]
pub struct UnsettledModel {
    pub id: Seq<char>,
    pub status: NodeStatus,
    pub outcome: Option<Seq<char>>,
}

impl View for Unsettled {
    type V = UnsettledModel;

    open spec fn view(&self) -> UnsettledModel {
        UnsettledModel { id: self.id@, status: self.status, outcome: text_of(self.outcome) }
    }
}

/// Why the failure hook fired, and every node not `done` when it was judged.
#[derive(Debug, PartialEq, Eq)]
pub struct Reason {
    /// Why.
    pub kind: ReasonKind,
    /// The nodes.
    pub nodes: Vec<Unsettled>,
}

/// Which hook fires, and why: a success carries no reason and a failure always carries
/// one.
#[derive(Debug, PartialEq, Eq)]
pub enum Firing {
    /// Every node settled `done`.
    Success,
    /// The run ended any other way, for this reason.
    Failure(Reason),
}

/// A firing as contracts speak of it.
#[verifier::ext_equal]
pub ghost enum FiringModel {
    Success,
    Failure(ReasonKind, Seq<UnsettledModel>),
}

/// Nodes that were not `done`, as contracts speak of them.
pub open spec fn unsettled_models(nodes: Seq<Unsettled>) -> Seq<UnsettledModel> {
    nodes.map_values(|n: Unsettled| n@)
}

impl View for Firing {
    type V = FiringModel;

    open spec fn view(&self) -> FiringModel {
        match self {
            Firing::Success => FiringModel::Success,
            Firing::Failure(reason) => FiringModel::Failure(
                reason.kind,
                unsettled_models(reason.nodes@),
            ),
        }
    }
}

/// Which hook a firing is.
pub open spec fn hook_of(firing: FiringModel) -> Hook {
    if firing is Success {
        Hook::Success
    } else {
        Hook::Failure
    }
}

impl Firing {
    /// Which hook fires.
    pub fn hook(&self) -> (r: Hook)
        ensures
            r == hook_of(self@),
    {
        match self {
            Firing::Success => Hook::Success,
            Firing::Failure(_) => Hook::Failure,
        }
    }

    /// Why, where there is a reason.
    pub fn reason(&self) -> (r: Option<&Reason>)
        ensures
            match *self {
                Firing::Success => r is None,
                Firing::Failure(reason) => r == Some(&reason),
            },
    {
        match self {
            Firing::Success => None,
            Firing::Failure(reason) => Some(reason),
        }
    }
}

/// What a driver letting go of a run owes it.
#[derive(Debug, PartialEq, Eq)]
pub enum Judged {
    /// The run has ended, and this is the hook it ended under.
    Fire(Firing),
    /// A decision is outstanding: the run is paused, not ended.
    Withhold,
    /// The run has not ended and is not paused on a decision either.
    NotEnded,
}

/// What a driver letting go of a run owes it, as contracts speak of it.
pub ghost enum JudgedModel {
    Fire(FiringModel),
    Withhold,
    NotEnded,
}

impl View for Judged {
    type V = JudgedModel;

    open spec fn view(&self) -> JudgedModel {
        match self {
            Judged::Fire(firing) => JudgedModel::Fire(firing@),
            Judged::Withhold => JudgedModel::Withhold,
            Judged::NotEnded => JudgedModel::NotEnded,
        }
    }
}

/// Some node has a status.
pub open spec fn some_at(statuses: StatusModel, status: NodeStatus) -> bool {
    exists|k: Seq<char>| #[trigger] statuses.contains_key(k) && statuses[k] == status
}

/// Every node not `done`, in plan order, as a hook is handed it.
pub open spec fn left_over(
    nodes: Seq<NodeModel>,
    statuses: StatusModel,
    outcomes: Map<Seq<char>, String>,
) -> Seq<UnsettledModel>
    decreases nodes.len(),
{
    if nodes.len() == 0 {
        Seq::empty()
    } else {
        let before = left_over(nodes.drop_last(), statuses, outcomes);
        let id = nodes.last().id;
        let status = if statuses.contains_key(id) {
            statuses[id]
        } else {
            NodeStatus::Pending
        };
        if status == NodeStatus::Done {
            before
        } else {
            before.push(
                UnsettledModel {
                    id,
                    status,
                    outcome: if outcomes.contains_key(id) {
                        Some(outcomes[id]@)
                    } else {
                        None
                    },
                },
            )
        }
    }
}

/// What a driver letting go of a run owes it: a complete graph is success, an
/// outstanding decision is a pause, a draft waiting on a release is a run still going,
/// and anything else not `done` is a failure.
pub open spec fn judgement(
    nodes: Seq<NodeModel>,
    statuses: StatusModel,
    outcomes: Map<Seq<char>, String>,
    decision: bool,
) -> JudgedModel {
    if forall|k: Seq<char>| !#[trigger] statuses.contains_key(k) {
        JudgedModel::NotEnded
    } else if all_done(statuses) {
        JudgedModel::Fire(FiringModel::Success)
    } else if decision {
        JudgedModel::Withhold
    } else if some_at(statuses, NodeStatus::CompleteDraft) {
        JudgedModel::NotEnded
    } else {
        JudgedModel::Fire(
            FiringModel::Failure(
                if some_at(statuses, NodeStatus::Failed) || some_at(statuses, NodeStatus::Skipped) {
                    ReasonKind::Nodes
                } else {
                    ReasonKind::Unfinished
                },
                left_over(nodes, statuses, outcomes),
            ),
        )
    }
}

/// Every node not `done`, in plan order, as a hook is handed it.
pub fn unsettled(graph: &Graph, statuses: &Statuses, outcomes: &NameMap<String>) -> (r: Vec<
    Unsettled,
>)
    requires
        statuses.wf(),
        outcomes.wf(),
    ensures
        unsettled_models(r@) == left_over(graph.nodes(), statuses@, outcomes@),
{
    let nodes = graph.iter();
    let ghost model = node_models(nodes@);
    let mut out: Vec<Unsettled> = Vec::new();
    let mut i: usize = 0;
    assert(unsettled_models(out@) =~= left_over(model.take(0), statuses@, outcomes@));
    while i < nodes.len()
        invariant
            statuses.wf(),
            outcomes.wf(),
            model == node_models(nodes@),
            i <= nodes@.len(),
            unsettled_models(out@) == left_over(model.take(i as int), statuses@, outcomes@),
        decreases nodes@.len() - i,
    {
        proof {
            assert(model.take(i + 1).drop_last() =~= model.take(i as int));
            assert(model.take(i + 1).last() == nodes@[i as int]@);
        }
        let id = &nodes[i].id;
        let status: NodeStatus = match statuses.get(id.as_str()) {
            Some(status) => *status,
            None => NodeStatus::Pending,
        };
        if status != NodeStatus::Done {
            let outcome: Option<String> = match outcomes.get(id.as_str()) {
                Some(outcome) => Some(outcome.clone()),
                None => None,
            };
            let one = Unsettled { id: id.clone(), status, outcome };
            let ghost was = unsettled_models(out@);
            let ghost added = one@;
            out.push(one);
            assert(unsettled_models(out@) =~= was.push(added));
        }
        i += 1;
    }
    assert(model.take(model.len() as int) =~= model);
    out
}

/// Whether some node has one of three statuses, and whether every node is done.
fn survey(statuses: &Statuses) -> (r: (bool, bool, bool, bool))
    requires
        statuses.wf(),
    ensures
        r.0 == (forall|k: Seq<char>| !#[trigger] statuses@.contains_key(k)),
        r.1 == all_done(statuses@),
        r.2 == some_at(statuses@, NodeStatus::CompleteDraft),
        r.3 == (some_at(statuses@, NodeStatus::Failed) || some_at(
            statuses@,
            NodeStatus::Skipped,
        )),
{
    let list = statuses.values();
    let mut done: bool = true;
    let mut draft: bool = false;
    let mut failed: bool = false;
    proof {
        statuses.lemma_views();
        lemma_over_values(*statuses);
    }
    let ghost order = statuses.order();
    let mut i: usize = 0;
    while i < list.len()
        invariant
            i <= list@.len(),
            done == forall|j: int| 0 <= j < i ==> #[trigger] list@[j] == NodeStatus::Done,
            draft == exists|j: int| 0 <= j < i && #[trigger] list@[j] == NodeStatus::CompleteDraft,
            failed == exists|j: int|
                0 <= j < i && (#[trigger] list@[j] == NodeStatus::Failed || list@[j]
                    == NodeStatus::Skipped),
        decreases list@.len() - i,
    {
        let status: NodeStatus = list[i];
        if status != NodeStatus::Done {
            done = false;
        }
        if status == NodeStatus::CompleteDraft {
            draft = true;
        }
        if status == NodeStatus::Failed || status == NodeStatus::Skipped {
            failed = true;
        }
        i += 1;
    }
    proof {
        if list@.len() > 0 {
            assert(statuses@.contains_key(order[0]));
        }
        if !done {
            let j = choose|j: int| 0 <= j < list@.len() && #[trigger] list@[j] != NodeStatus::Done;
            assert(statuses@.contains_key(order[j]));
        }
        if draft {
            let j = choose|j: int|
                0 <= j < list@.len() && #[trigger] list@[j] == NodeStatus::CompleteDraft;
            assert(statuses@.contains_key(order[j]));
        }
        if failed {
            let j = choose|j: int|
                0 <= j < list@.len() && (#[trigger] list@[j] == NodeStatus::Failed || list@[j]
                    == NodeStatus::Skipped);
            assert(statuses@.contains_key(order[j]));
        }
    }
    (list.len() == 0, done, draft, failed)
}

/// Judge a run a driver has let go of, on the graph as it now stands, given whether a
/// decision is outstanding.
pub fn judge(
    graph: &Graph,
    statuses: &Statuses,
    outcomes: &NameMap<String>,
    decision_outstanding: bool,
) -> (r: Judged)
    requires
        statuses.wf(),
        outcomes.wf(),
    ensures
        r@ == judgement(graph.nodes(), statuses@, outcomes@, decision_outstanding),
{
    let (none, done, draft, failed) = survey(statuses);
    if none {
        return Judged::NotEnded;
    }
    if done {
        return Judged::Fire(Firing::Success);
    }
    if decision_outstanding {
        return Judged::Withhold;
    }
    if draft {
        return Judged::NotEnded;
    }
    let kind: ReasonKind = if failed {
        ReasonKind::Nodes
    } else {
        ReasonKind::Unfinished
    };
    let nodes = unsettled(graph, statuses, outcomes);
    Judged::Fire(Firing::Failure(Reason { kind, nodes }))
}

/// What firing a hook takes: which, what command, and why.
#[derive(Debug, PartialEq, Eq)]
pub struct Fired {
    /// Which, and why.
    pub firing: Firing,
    /// The command the launch names for it.
    pub command: String,
}

/// What a driver does as it lets go of a run.
#[derive(Debug, PartialEq, Eq)]
pub enum LetGo {
    /// Nothing.
    Nothing,
    /// Mark a hook as fired, run it, and record how it ended.
    Fire(Fired),
    /// Record that the run is paused, so no hook fired.
    Withhold,
}

/// A hook fires once per run, and only where the launch names its command: an ending
/// whose hook is not named fires nothing and marks nothing, so a hook that is named is
/// still reachable later.
pub open spec fn fires(
    firing: FiringModel,
    success: Option<Seq<char>>,
    failure: Option<Seq<char>>,
    fired: bool,
) -> Option<Seq<char>> {
    let command = match hook_of(firing) {
        Hook::Success => success,
        Hook::Failure => failure,
    };
    if fired {
        None
    } else {
        command
    }
}

/// A driver's letting go does this.
pub open spec fn owes(
    r: LetGo,
    judged: JudgedModel,
    success: Option<Seq<char>>,
    failure: Option<Seq<char>>,
    fired: bool,
) -> bool {
    if success is None && failure is None {
        r is Nothing
    } else {
        match judged {
            JudgedModel::NotEnded => r is Nothing,
            JudgedModel::Withhold => if fired {
                r is Nothing
            } else {
                r is Withhold
            },
            JudgedModel::Fire(firing) => match fires(firing, success, failure, fired) {
                None => r is Nothing,
                Some(command) => r matches LetGo::Fire(fire) && fire.firing@ == firing
                    && fire.command@ == command,
            },
        }
    }
}

fn fire(
    firing: Firing,
    success: &Option<String>,
    failure: &Option<String>,
    already_fired: bool,
) -> (r: LetGo)
    ensures
        match fires(firing@, text_of(*success), text_of(*failure), already_fired) {
            None => r is Nothing,
            Some(command) => r matches LetGo::Fire(fire) && fire.firing@ == firing@
                && fire.command@ == command,
        },
{
    if already_fired {
        return LetGo::Nothing;
    }
    let hook = firing.hook();
    match hook.command(success, failure) {
        None => LetGo::Nothing,
        Some(command) => LetGo::Fire(Fired { firing, command: command.clone() }),
    }
}

/// What a driver owes the run it has just let go of, given whether the run's journal
/// carries the marker a firing leaves.
///
/// A run whose launch names no hook owes nothing, and a run that has already fired its
/// hook is past every judgement, a pause among them.
pub fn let_go(
    judged: Judged,
    success: &Option<String>,
    failure: &Option<String>,
    already_fired: bool,
) -> (r: LetGo)
    ensures
        owes(r, judged@, text_of(*success), text_of(*failure), already_fired),
{
    if success.is_none() && failure.is_none() {
        return LetGo::Nothing;
    }
    match judged {
        Judged::NotEnded => LetGo::Nothing,
        Judged::Withhold => if already_fired {
            LetGo::Nothing
        } else {
            LetGo::Withhold
        },
        Judged::Fire(firing) => fire(firing, success, failure, already_fired),
    }
}

/// What a clean stop owes the run it stopped: the failure hook, as `stopped`.
pub fn stopped(
    graph: &Graph,
    statuses: &Statuses,
    outcomes: &NameMap<String>,
    success: &Option<String>,
    failure: &Option<String>,
    already_fired: bool,
) -> (r: LetGo)
    requires
        statuses.wf(),
        outcomes.wf(),
    ensures
        owes(
            r,
            JudgedModel::Fire(
                FiringModel::Failure(
                    ReasonKind::Stopped,
                    left_over(graph.nodes(), statuses@, outcomes@),
                ),
            ),
            text_of(*success),
            text_of(*failure),
            already_fired,
        ),
{
    let nodes = unsettled(graph, statuses, outcomes);
    let firing = Firing::Failure(Reason { kind: ReasonKind::Stopped, nodes });
    if success.is_none() && failure.is_none() {
        return LetGo::Nothing;
    }
    fire(firing, success, failure, already_fired)
}

/// A run fires at most one hook: once the marker is in its journal, no judgement fires
/// or withholds again.
pub proof fn law_a_hook_fires_once(
    r: LetGo,
    judged: JudgedModel,
    success: Option<Seq<char>>,
    failure: Option<Seq<char>>,
)
    requires
        owes(r, judged, success, failure, true),
    ensures
        r is Nothing,
{
}

/// A run whose launch names no hook owes nothing.
pub proof fn law_a_run_without_hooks_owes_nothing(r: LetGo, judged: JudgedModel, fired: bool)
    requires
        owes(r, judged, None, None, fired),
    ensures
        r is Nothing,
{
}

/// A run holding a draft that waits on a release has not ended, whatever else its graph
/// holds.
pub proof fn law_a_waiting_draft_has_not_ended(
    nodes: Seq<NodeModel>,
    statuses: StatusModel,
    outcomes: Map<Seq<char>, String>,
    decision: bool,
)
    requires
        some_at(statuses, NodeStatus::CompleteDraft),
    ensures
        !(judgement(nodes, statuses, outcomes, decision) is Fire),
{
    let k = choose|k: Seq<char>| #[trigger]
        statuses.contains_key(k) && statuses[k] == NodeStatus::CompleteDraft;
    assert(statuses.contains_key(k));
}

/// The success hook fires only over a graph every node of which is `done`.
pub proof fn law_success_is_every_node_done(
    nodes: Seq<NodeModel>,
    statuses: StatusModel,
    outcomes: Map<Seq<char>, String>,
    decision: bool,
)
    ensures
        judgement(nodes, statuses, outcomes, decision) == JudgedModel::Fire(FiringModel::Success)
            <==> all_done(statuses) && exists|k: Seq<char>| #[trigger] statuses.contains_key(k),
{
}

/// Whether a run's journal carries the marker a firing leaves.
pub fn fired(events: &Vec<Envelope>) -> (r: bool)
    ensures
        r == exists|i: int|
            0 <= i < events@.len() && (#[trigger] events@[i]).kind.0@
                == PipelineKind::RunHookFired.word(),
{
    let mut i: usize = 0;
    while i < events.len()
        invariant
            i <= events@.len(),
            forall|j: int|
                0 <= j < i ==> (#[trigger] events@[j]).kind.0@
                    != PipelineKind::RunHookFired.word(),
        decreases events@.len() - i,
    {
        if is_kind(&events[i], PipelineKind::RunHookFired) {
            return true;
        }
        i += 1;
    }
    false
}

/// A node as a hook is handed it.
pub open spec fn writes_unsettled(value: Json, node: UnsettledModel) -> bool {
    value matches Json::Object(fields) && {
        &&& record::names(fields@) == seq!["id"@, "status"@, "outcome"@]
        &&& fields@.len() == 3
        &&& fields@[0].1 is Text && fields@[0].1->Text_0@ == node.id
        &&& fields@[1].1 is Text && fields@[1].1->Text_0@ == node.status.word()
        &&& match node.outcome {
            Some(outcome) => fields@[2].1 is Text && fields@[2].1->Text_0@ == outcome,
            None => fields@[2].1 is Null,
        }
    }
}

/// A firing's reason as the marker and the document write it: null for a success.
pub open spec fn writes_reason(value: Json, firing: FiringModel) -> bool {
    match firing {
        FiringModel::Success => value is Null,
        FiringModel::Failure(kind, nodes) => value matches Json::Object(fields) && {
            &&& record::names(fields@) == seq!["kind"@, "nodes"@]
            &&& fields@.len() == 2
            &&& fields@[0].1 is Text && fields@[0].1->Text_0@ == kind.word()
            &&& fields@[1].1 matches Json::List(list) && list@.len() == nodes.len() && forall|i: int|
                0 <= i < nodes.len() ==> writes_unsettled(#[trigger] list@[i], nodes[i])
        },
    }
}

fn write_unsettled(node: &Unsettled) -> (r: Json)
    ensures
        writes_unsettled(r, node@),
{
    let mut fields: Vec<(String, Json)> = Vec::new();
    fields.push(("id".to_owned(), Json::Text(node.id.clone())));
    fields.push(("status".to_owned(), Json::Text(node.status.as_str().to_owned())));
    let outcome: Json = match &node.outcome {
        Some(outcome) => Json::Text(outcome.clone()),
        None => Json::Null,
    };
    fields.push(("outcome".to_owned(), outcome));
    assert(record::names(fields@) =~= seq!["id"@, "status"@, "outcome"@]);
    Json::Object(fields)
}

/// A firing's reason as it is written.
pub fn write_reason(firing: &Firing) -> (r: Json)
    ensures
        writes_reason(r, firing@),
{
    let reason: &Reason = match firing {
        Firing::Success => {
            return Json::Null;
        },
        Firing::Failure(reason) => reason,
    };
    let mut list: Vec<Json> = Vec::new();
    let mut i: usize = 0;
    while i < reason.nodes.len()
        invariant
            i <= reason.nodes@.len(),
            list@.len() == i,
            forall|j: int|
                0 <= j < i ==> writes_unsettled(#[trigger] list@[j], reason.nodes@[j]@),
        decreases reason.nodes@.len() - i,
    {
        list.push(write_unsettled(&reason.nodes[i]));
        i += 1;
    }
    let mut fields: Vec<(String, Json)> = Vec::new();
    fields.push(("kind".to_owned(), Json::Text(reason.kind.as_str().to_owned())));
    fields.push(("nodes".to_owned(), Json::List(list)));
    assert(record::names(fields@) =~= seq!["kind"@, "nodes"@]);
    assert forall|j: int| 0 <= j < list@.len() implies writes_unsettled(
        #[trigger] list@[j],
        unsettled_models(reason.nodes@)[j],
    ) by {
        assert(unsettled_models(reason.nodes@)[j] == reason.nodes@[j]@);
    }
    Json::Object(fields)
}

/// The one document a hook reads on its stdin.
pub open spec fn is_document(
    value: Json,
    run: Seq<char>,
    root: Seq<char>,
    firing: FiringModel,
) -> bool {
    value matches Json::Object(fields) && {
        &&& record::names(fields@) == seq!["version"@, "hook"@, "run_id"@, "run_root"@, "reason"@]
        &&& fields@.len() == 5
        &&& fields@[0].1 == Json::Count(DOCUMENT_VERSION)
        &&& fields@[1].1 is Text && fields@[1].1->Text_0@ == hook_of(firing).word()
        &&& fields@[2].1 is Text && fields@[2].1->Text_0@ == run
        &&& fields@[3].1 is Text && fields@[3].1->Text_0@ == root
        &&& writes_reason(fields@[4].1, firing)
    }
}

/// The one document a hook reads on its stdin.
pub fn document(run: &str, run_root: &str, firing: &Firing) -> (r: Json)
    ensures
        is_document(r, run@, run_root@, firing@),
{
    let reason = write_reason(firing);
    let mut fields: Vec<(String, Json)> = Vec::new();
    fields.push(("version".to_owned(), Json::Count(DOCUMENT_VERSION)));
    fields.push(("hook".to_owned(), Json::Text(firing.hook().as_str().to_owned())));
    fields.push(("run_id".to_owned(), Json::Text(run.to_owned())));
    fields.push(("run_root".to_owned(), Json::Text(run_root.to_owned())));
    fields.push(("reason".to_owned(), reason));
    assert(record::names(fields@) =~= seq!["version"@, "hook"@, "run_id"@, "run_root"@, "reason"@]);
    Json::Object(fields)
}

/// What the marker of a firing carries.
pub fn fired_payload(fired: &Fired) -> (r: Vec<(String, Json)>)
    ensures
        record::names(r@) == seq!["hook"@, "command"@, "reason"@],
        r@.len() == 3,
        r@[0].1 is Text && r@[0].1->Text_0@ == hook_of(fired.firing@).word(),
        r@[1].1 is Text && r@[1].1->Text_0@ == fired.command@,
        writes_reason(r@[2].1, fired.firing@),
{
    let reason = write_reason(&fired.firing);
    let mut fields: Vec<(String, Json)> = Vec::new();
    fields.push(("hook".to_owned(), Json::Text(fired.firing.hook().as_str().to_owned())));
    fields.push(("command".to_owned(), Json::Text(fired.command.clone())));
    fields.push(("reason".to_owned(), reason));
    assert(record::names(fields@) =~= seq!["hook"@, "command"@, "reason"@]);
    fields
}

/// What the record of a withheld hook carries.
pub fn withheld_payload() -> (r: Vec<(String, Json)>)
    ensures
        json::all_texts(r@, seq![("settlement"@, PAUSED@)]),
{
    let mut fields: Vec<(String, Json)> = Vec::new();
    let ghost none = Seq::<(Seq<char>, Seq<char>)>::empty();
    assert(json::all_texts(fields@, none));
    json::push_text(&mut fields, "settlement", PAUSED);
    assert(none.push(("settlement"@, PAUSED@)) =~= seq![("settlement"@, PAUSED@)]);
    fields
}

/// What is said where whether a run fires a hook could not be judged.
pub open spec fn unjudged(run: Seq<char>, why: Seq<char>) -> Seq<char> {
    "onepipeline: whether run '"@ + run + "' fires a run-end hook could not be judged: "@ + why
}

/// What a driver that has let go of a run does before it judges the run.
#[derive(Debug, PartialEq, Eq)]
pub enum Judging {
    /// Judge it.
    Judge,
    /// Nothing: its launch names no hook.
    Nothing,
    /// Say that it could not be judged.
    Unjudged(String),
}

/// Whether a run is judged at all, from whether its launch record reads and what hooks
/// it names, and whether the run reads.
///
/// A record that names none is a launch that fires nothing, so nothing is judged for
/// it. A record that cannot be read is not one that names none, so that is said rather
/// than firing nothing in silence.
pub fn judged_view(
    run: &str,
    record: Result<(&Option<String>, &Option<String>), &str>,
    view: Result<(), &str>,
) -> (r: Judging)
    ensures
        match record {
            Err(why) => r matches Judging::Unjudged(said) && said@ == unjudged(run@, why@),
            Ok((success, failure)) => if *success is None && *failure is None {
                r is Nothing
            } else {
                match view {
                    Err(why) => r matches Judging::Unjudged(said) && said@ == unjudged(
                        run@,
                        why@,
                    ),
                    Ok(()) => r is Judge,
                }
            },
        },
{
    let why = match record {
        Err(why) => why,
        Ok((success, failure)) => {
            if success.is_none() && failure.is_none() {
                return Judging::Nothing;
            }
            match view {
                Ok(()) => return Judging::Judge,
                Err(why) => why,
            }
        },
    };
    let mut said: String = String::from_str("onepipeline: whether run '");
    said.append(run);
    said.append("' fires a run-end hook could not be judged: ");
    said.append(why);
    Judging::Unjudged(said)
}

/// What a driver says as it lets go of a paused run.
pub fn withheld_notice(run: &str) -> (r: String)
    ensures
        r@ == "onepipeline: run '"@ + run@ + "' is paused on a decision ("@ + PAUSED@
            + "), so no run-end hook fired; the driver that adopts it once the decision is answered fires the hook the run then reaches"@,
{
    let mut out: String = String::from_str("onepipeline: run '");
    out.append(run);
    out.append("' is paused on a decision (");
    out.append(PAUSED);
    out.append(
        "), so no run-end hook fired; the driver that adopts it once the decision is answered fires the hook the run then reaches",
    );
    out
}

/// Where a hook's output is kept, under the run's own directory.
pub open spec fn log_at(root: Seq<char>, hook: Hook) -> Seq<char> {
    joined(joined(root, "hooks"@), hook.word() + ".log"@)
}

/// Where a hook's output is kept, under the run's own directory.
pub fn log_path(run_root: &str, hook: Hook) -> (r: String)
    ensures
        r@ == log_at(run_root@, hook),
{
    let dir = ledger::join_path(run_root, "hooks");
    let mut name: String = hook.as_str().to_owned();
    name.append(".log");
    ledger::join_path(dir.as_str(), name.as_str())
}

/// How a hook ended.
#[derive(Debug, Clone, Copy, PartialEq, Eq, Structural)]
pub enum Ending {
    /// It exited zero.
    Succeeded,
    /// It exited otherwise.
    Failed,
    /// It could not be started.
    CouldNotStart,
    /// It outlived its timeout.
    TimedOut,
}

impl Ending {
    /// The word an ending is written as.
    pub open spec fn word(self) -> Seq<char> {
        match self {
            Ending::Succeeded => "succeeded"@,
            Ending::Failed => "failed"@,
            Ending::CouldNotStart => "could-not-start"@,
            Ending::TimedOut => "timed-out"@,
        }
    }

    /// The word this ending is written as.
    pub fn as_str(self) -> (r: &'static str)
        ensures
            r@ == self.word(),
    {
        match self {
            Ending::Succeeded => "succeeded",
            Ending::Failed => "failed",
            Ending::CouldNotStart => "could-not-start",
            Ending::TimedOut => "timed-out",
        }
    }
}

/// How a hook's process ended, carrying an exit only where that ending has one.
#[derive(Debug, Clone, Copy, PartialEq, Eq, Structural)]
pub enum Ran {
    /// It exited zero.
    Succeeded,
    /// It exited non-zero, or ended with no code this host could report.
    Failed(Option<i32>),
    /// It could not be started.
    CouldNotStart,
    /// It outlived its timeout.
    TimedOut,
}

impl Ran {
    /// How the hook ended.
    pub open spec fn ended(self) -> Ending {
        match self {
            Ran::Succeeded => Ending::Succeeded,
            Ran::Failed(_) => Ending::Failed,
            Ran::CouldNotStart => Ending::CouldNotStart,
            Ran::TimedOut => Ending::TimedOut,
        }
    }

    /// The exit the ending has.
    pub open spec fn exited(self) -> Option<i32> {
        match self {
            Ran::Succeeded => Some(0),
            Ran::Failed(code) => code,
            _ => None,
        }
    }

    /// How the hook ended.
    pub fn ending(self) -> (r: Ending)
        ensures
            r == self.ended(),
    {
        match self {
            Ran::Succeeded => Ending::Succeeded,
            Ran::Failed(_) => Ending::Failed,
            Ran::CouldNotStart => Ending::CouldNotStart,
            Ran::TimedOut => Ending::TimedOut,
        }
    }

    /// The exit the ending has.
    pub fn exit(self) -> (r: Option<i32>)
        ensures
            r == self.exited(),
    {
        match self {
            Ran::Succeeded => Some(0),
            Ran::Failed(code) => code,
            Ran::CouldNotStart => None,
            Ran::TimedOut => None,
        }
    }
}

/// A number as a payload carries it.
pub open spec fn number(n: i32) -> Json {
    if n >= 0 {
        Json::Count(n as u64)
    } else {
        Json::Debt(n as i64)
    }
}

/// What the record of how a hook ended carries.
pub fn finished_payload(hook: Hook, ran: Ran, log: &str) -> (r: Vec<(String, Json)>)
    ensures
        record::names(r@) == seq!["hook"@, "exit"@, "ending"@, "log"@],
        r@.len() == 4,
        r@[0].1 is Text && r@[0].1->Text_0@ == hook.word(),
        r@[1].1 == (match ran.exited() {
            Some(code) => number(code),
            None => Json::Null,
        }),
        r@[2].1 is Text && r@[2].1->Text_0@ == ran.ended().word(),
        r@[3].1 is Text && r@[3].1->Text_0@ == log@,
{
    let exit: Json = match ran.exit() {
        Some(code) => if code >= 0 {
            Json::Count(code as u64)
        } else {
            Json::Debt(code as i64)
        },
        None => Json::Null,
    };
    let mut fields: Vec<(String, Json)> = Vec::new();
    fields.push(("hook".to_owned(), Json::Text(hook.as_str().to_owned())));
    fields.push(("exit".to_owned(), exit));
    fields.push(("ending".to_owned(), Json::Text(ran.ending().as_str().to_owned())));
    fields.push(("log".to_owned(), Json::Text(log.to_owned())));
    assert(record::names(fields@) =~= seq!["hook"@, "exit"@, "ending"@, "log"@]);
    fields
}

/// How a hook is started: where, and under which environment.
#[derive(Debug, PartialEq, Eq)]
pub struct Start {
    /// Where, unless it is where this process is.
    pub dir: Option<String>,
    /// The variables it is given.
    pub set: Vec<(String, String)>,
    /// The variables it is not to have.
    pub unset: Vec<String>,
}

/// The environment variable naming who launched a run.
pub const LAUNCHER_ENV: &'static str = "ONEPIPELINE_LAUNCHER";

/// The environment variable naming the session a run was launched from.
pub const LAUNCHER_SESSION_ENV: &'static str = "ONEPIPELINE_LAUNCHER_SESSION";

/// The variables a hook is given: which hook, for which run, and — where the run is
/// somebody's — whose, because a follow-up a hook launches belongs to whoever this run
/// belongs to.
pub open spec fn hook_environment(
    hook: Hook,
    run: Seq<char>,
    root: Seq<char>,
    launcher: Seq<char>,
    session: Seq<char>,
) -> Seq<(Seq<char>, Seq<char>)> {
    let own = seq![(HOOK_ENV@, hook.word()), (RUN_ID_ENV@, run), (RUN_ROOT_ENV@, root)];
    if ledger::owned(session, session) {
        own.push((LAUNCHER_ENV@, launcher)).push((LAUNCHER_SESSION_ENV@, session))
    } else {
        own
    }
}

/// How a hook is started. A record from before the launch directory was recorded names
/// none; and one naming nobody leaves both owner variables unset rather than handing on
/// this process's own.
pub fn start(
    hook: Hook,
    run: &str,
    run_root: &str,
    dir: &str,
    launcher: &str,
    session: &str,
) -> (r: Start)
    ensures
        text_of(r.dir) == (if dir@.len() > 0 {
            Some(dir@)
        } else {
            None
        }),
        crate::plan::pairs_of(r.set@) == hook_environment(
            hook,
            run@,
            run_root@,
            launcher@,
            session@,
        ),
        texts(r.unset@) == (if ledger::owned(session@, session@) {
            Seq::empty()
        } else {
            seq![LAUNCHER_ENV@, LAUNCHER_SESSION_ENV@]
        }),
{
    let mut set: Vec<(String, String)> = Vec::new();
    let mut unset: Vec<String> = Vec::new();
    set.push((HOOK_ENV.to_owned(), hook.as_str().to_owned()));
    set.push((RUN_ID_ENV.to_owned(), run.to_owned()));
    set.push((RUN_ROOT_ENV.to_owned(), run_root.to_owned()));
    let ghost own = seq![(HOOK_ENV@, hook.word()), (RUN_ID_ENV@, run@), (RUN_ROOT_ENV@, run_root@)];
    assert(crate::plan::pairs_of(set@) =~= own);
    if text::same(session, ledger::UNKNOWN_LAUNCHER) {
        unset.push(LAUNCHER_ENV.to_owned());
        unset.push(LAUNCHER_SESSION_ENV.to_owned());
        assert(texts(unset@) =~= seq![LAUNCHER_ENV@, LAUNCHER_SESSION_ENV@]);
    } else {
        set.push((LAUNCHER_ENV.to_owned(), launcher.to_owned()));
        set.push((LAUNCHER_SESSION_ENV.to_owned(), session.to_owned()));
        assert(crate::plan::pairs_of(set@) =~= own.push((LAUNCHER_ENV@, launcher@)).push(
            (LAUNCHER_SESSION_ENV@, session@),
        ));
        assert(texts(unset@) =~= Seq::empty());
    }
    let dir: Option<String> = if dir.unicode_len() > 0 {
        Some(dir.to_owned())
    } else {
        None
    };
    Start { dir, set, unset }
}

/// What a look at a running hook showed.
#[derive(Debug, Clone, Copy, PartialEq, Eq, Structural)]
pub enum Looked {
    /// It exited.
    Exited {
        /// Whether its exit says it succeeded.
        success: bool,
        /// Its code, where this host could report one.
        code: Option<i32>,
    },
    /// It is running.
    Running,
    /// This process can no longer ask about it.
    Lost,
}

/// What a wait on a hook does next.
#[derive(Debug, Clone, Copy, PartialEq, Eq, Structural)]
pub enum Waited {
    /// It is over.
    Over(Ran),
    /// Look again later.
    Again,
    /// End its process tree, and then it is over.
    End(Ran),
}

/// What a wait on a hook does next, given whether its deadline has passed: past the
/// timeout — or where the hook can no longer be asked about, which is ended the same way
/// rather than left running unrecorded.
pub fn wait(looked: Looked, past_deadline: bool) -> (r: Waited)
    ensures
        r == (match looked {
            Looked::Exited { success, code } => if success {
                Waited::Over(Ran::Succeeded)
            } else {
                Waited::Over(Ran::Failed(code))
            },
            Looked::Running => if past_deadline {
                Waited::End(Ran::TimedOut)
            } else {
                Waited::Again
            },
            Looked::Lost => Waited::End(Ran::Failed(None)),
        }),
{
    match looked {
        Looked::Exited { success, code } => if success {
            Waited::Over(Ran::Succeeded)
        } else {
            Waited::Over(Ran::Failed(code))
        },
        Looked::Running => if past_deadline {
            Waited::End(Ran::TimedOut)
        } else {
            Waited::Again
        },
        Looked::Lost => Waited::End(Ran::Failed(None)),
    }
}

/// When a hook started now has outlived its timeout, on a clock that counts
/// milliseconds, or nothing where that is further off than the clock can count to.
///
/// A timeout is any positive whole number of seconds, so one can name a moment no clock
/// holds: a timeout no hook can outlive, waited without a bound.
pub fn deadline_after(now: u64, timeout: u64) -> (r: Option<u64>)
    ensures
        r == (if now + timeout * 1000 <= u64::MAX {
            Some((now + timeout * 1000) as u64)
        } else {
            None
        }),
{
    match timeout.checked_mul(1000) {
        Some(wait) => now.checked_add(wait),
        None => None,
    }
}

/// Where in a log of this length a view starts reading its tail.
pub fn tail_start(length: u64) -> (r: u64)
    ensures
        r == (if length > MAX_TAIL_BYTES {
            length - MAX_TAIL_BYTES
        } else {
            0
        }),
{
    if length > MAX_TAIL_BYTES {
        length - MAX_TAIL_BYTES
    } else {
        0
    }
}

/// The last whole lines of what was read of a log: a read that began mid-file began
/// mid-line, and half a line is not one.
pub open spec fn tail_of(lines: Seq<Seq<char>>, mid_file: bool) -> Seq<Seq<char>> {
    let whole = if mid_file && lines.len() > 0 {
        lines.skip(1)
    } else {
        lines
    };
    if whole.len() > RESULTS_OUTPUT_LINES {
        whole.skip(whole.len() - RESULTS_OUTPUT_LINES)
    } else {
        whole
    }
}

/// The last whole lines of what was read of a log from a position on.
pub fn tail(said: &Vec<u8>, start: u64) -> (r: Vec<String>)
    ensures
        texts(r@) == tail_of(lines(lossy_text(said@)), start > 0),
{
    let whole = ledger::read_lossy(said, 0, said.len());
    assert(said@.subrange(0, said@.len() as int) =~= said@);
    let list = text::lines_of(whole.as_str());
    let n: usize = list.len();
    let first: usize = if start > 0 && n > 0 {
        1
    } else {
        0
    };
    let from: usize = if n - first > RESULTS_OUTPUT_LINES {
        n - RESULTS_OUTPUT_LINES
    } else {
        first
    };
    let ghost model = texts(list@);
    let mut out: Vec<String> = Vec::new();
    let mut i: usize = from;
    assert(texts(out@) =~= model.subrange(from as int, from as int));
    while i < n
        invariant
            n == list@.len(),
            model == texts(list@),
            from <= i <= n,
            texts(out@) == model.subrange(from as int, i as int),
        decreases n - i,
    {
        let ghost was = texts(out@);
        out.push(list[i].clone());
        assert(texts(out@) =~= was.push(list@[i as int]@));
        i += 1;
        assert(texts(out@) =~= model.subrange(from as int, i as int));
    }
    assert(texts(out@) =~= tail_of(model, start > 0));
    out
}

/// What a view found of a hook's log.
#[derive(Debug, PartialEq, Eq)]
pub enum Tail {
    /// Its last lines.
    Lines(Vec<String>),
    /// There is none: a hook that could not start may have had nowhere to log.
    Absent,
    /// It could not be read, and why.
    Unread(String),
}

/// The log whose name no longer holds a plain file is refused in these words.
pub fn not_plain(log: &str) -> (r: String)
    ensures
        r@ == log@ + " is not a plain file this run wrote"@,
{
    let mut out: String = log.to_owned();
    out.append(" is not a plain file this run wrote");
    out
}

/// What a view repeats of a hook's output.
pub open spec fn output_lines(lines: Seq<Seq<char>>) -> Seq<char>
    decreases lines.len(),
{
    if lines.len() == 0 {
        Seq::empty()
    } else {
        output_lines(lines.drop_last()) + ("      output: "@ + one_lined(lines.last()) + "\n"@)
    }
}

/// What a view says of a hook's log.
pub open spec fn tail_text(tail: Tail) -> Seq<char> {
    match tail {
        Tail::Lines(list) => output_lines(texts(list@)),
        Tail::Absent => Seq::empty(),
        Tail::Unread(error) => "      log not read: "@ + one_lined(error@) + "\n"@,
    }
}

/// The whole number a value is.
pub open spec fn integer_in(value: Option<Json>) -> Option<int> {
    match value {
        Some(Json::Count(n)) => if n <= i64::MAX {
            Some(n as int)
        } else {
            None
        },
        Some(Json::Debt(n)) => Some(n as int),
        _ => None,
    }
}

/// The hook a marker names.
pub open spec fn marked_hook(payload: Seq<(String, Json)>) -> Option<Hook> {
    match text_in(field_in(payload, "hook"@)) {
        Some(word) => Hook::read(word),
        None => None,
    }
}

/// Why a marker says the hook fired.
pub open spec fn marked_reason(payload: Seq<(String, Json)>) -> Seq<char> {
    match field_in(payload, "reason"@) {
        Some(Json::Object(reason)) => match text_in(field_in(reason@, "kind"@)) {
            Some(kind) => kind,
            None => "none"@,
        },
        _ => "none"@,
    }
}

/// The record of how a hook ended, from a position of the journal on.
pub open spec fn finished_at(events: Seq<Envelope>, hook: Hook, from: int) -> Option<int>
    decreases events.len() - from,
{
    if from < 0 || from >= events.len() {
        None
    } else if events[from].kind.0@ == PipelineKind::RunHookFinished.word() && text_in(
        field_in(events[from].payload@, "hook"@),
    ) == Some(hook.word()) {
        Some(from)
    } else {
        finished_at(events, hook, from + 1)
    }
}

/// How a view says a hook ended.
pub open spec fn ended_text(payload: Seq<(String, Json)>) -> Seq<char> {
    "ending: "@ + one_lined(
        match text_in(field_in(payload, "ending"@)) {
            Some(ending) => ending,
            None => "unrecorded"@,
        },
    ) + "; exit: "@ + (match integer_in(field_in(payload, "exit"@)) {
        Some(code) => dec_int(code),
        None => "none"@,
    })
}

/// The line a view gives a hook that fired.
pub open spec fn fired_line(
    events: Seq<Envelope>,
    at: int,
    root: Seq<char>,
    hook: Hook,
) -> Seq<char> {
    "  "@ + hook.word() + " hook fired — reason: "@ + one_lined(
        marked_reason(events[at].payload@),
    ) + "; "@ + (match finished_at(events, hook, at + 1) {
        Some(i) => ended_text(events[i].payload@),
        None => "still running"@,
    }) + "; log: "@ + log_at(root, hook) + "\n"@
}

/// The line a view gives a let-go that withheld a hook.
pub open spec fn withheld_line(payload: Seq<(String, Json)>) -> Seq<char> {
    "  run-end hook withheld — the run is paused on a decision ("@ + one_lined(
        match text_in(field_in(payload, "settlement"@)) {
            Some(settlement) => settlement,
            None => PAUSED@,
        },
    ) + "), so no hook fired\n"@
}

/// What a view says of one event.
pub open spec fn event_lines(
    events: Seq<Envelope>,
    at: int,
    root: Seq<char>,
    success: Tail,
    failure: Tail,
) -> Seq<char> {
    if events[at].kind.0@ == PipelineKind::RunHookFired.word() {
        match marked_hook(events[at].payload@) {
            None => Seq::empty(),
            Some(hook) => fired_line(events, at, root, hook) + tail_text(
                match hook {
                    Hook::Success => success,
                    Hook::Failure => failure,
                },
            ),
        }
    } else if events[at].kind.0@ == PipelineKind::RunHookWithheld.word() {
        withheld_line(events[at].payload@)
    } else {
        Seq::empty()
    }
}

/// What a view says of the first `n` events.
pub open spec fn results_text(
    events: Seq<Envelope>,
    n: int,
    root: Seq<char>,
    success: Tail,
    failure: Tail,
) -> Seq<char>
    decreases n,
{
    if n <= 0 {
        Seq::empty()
    } else {
        results_text(events, n - 1, root, success, failure) + event_lines(
            events,
            n - 1,
            root,
            success,
            failure,
        )
    }
}

fn say_tail(tail: &Tail) -> (r: String)
    ensures
        r@ == tail_text(*tail),
{
    let mut out: String = String::new();
    match tail {
        Tail::Absent => {},
        Tail::Unread(error) => {
            let line = text::one_line(error.as_str());
            out.append("      log not read: ");
            out.append(line.as_str());
            out.append("\n");
            assert(out@ =~= tail_text(*tail));
        },
        Tail::Lines(list) => {
            let ghost model = texts(list@);
            let mut i: usize = 0;
            assert(out@ =~= output_lines(model.take(0)));
            while i < list.len()
                invariant
                    model == texts(list@),
                    i <= list@.len(),
                    out@ == output_lines(model.take(i as int)),
                decreases list@.len() - i,
            {
                proof {
                    assert(model.take(i + 1).drop_last() =~= model.take(i as int));
                    assert(model.take(i + 1).last() == list@[i as int]@);
                }
                let line = text::one_line(list[i].as_str());
                let mut one: String = String::from_str("      output: ");
                one.append(line.as_str());
                one.append("\n");
                out.append(one.as_str());
                i += 1;
            }
            assert(model.take(model.len() as int) =~= model);
        },
    }
    out
}

fn find_finished(events: &Vec<Envelope>, hook: Hook, from: usize) -> (r: Option<usize>)
    requires
        from <= events@.len(),
    ensures
        match r {
            Some(i) => finished_at(events@, hook, from as int) == Some(i as int) && i
                < events@.len(),
            None => finished_at(events@, hook, from as int) is None,
        },
{
    let mut i: usize = from;
    while i < events.len()
        invariant
            from <= i <= events@.len(),
            finished_at(events@, hook, from as int) == finished_at(events@, hook, i as int),
        decreases events@.len() - i,
    {
        if is_kind(&events[i], PipelineKind::RunHookFinished) {
            let named: bool = match json::text_field(&events[i].payload, "hook") {
                Some(word) => text::same(word.as_str(), hook.as_str()),
                None => false,
            };
            if named {
                return Some(i);
            }
        }
        i += 1;
    }
    None
}

fn say_ended(payload: &Vec<(String, Json)>) -> (r: String)
    ensures
        r@ == ended_text(payload@),
{
    let ending: String = match json::text_field(payload, "ending") {
        Some(ending) => text::one_line(ending.as_str()),
        None => text::one_line("unrecorded"),
    };
    let exit: String = match json::field(payload, "exit") {
        Some(Json::Count(n)) => if *n <= i64::MAX as u64 {
            text::dec_int_text(*n as i64)
        } else {
            "none".to_owned()
        },
        Some(Json::Debt(n)) => text::dec_int_text(*n),
        _ => "none".to_owned(),
    };
    let mut out: String = String::from_str("ending: ");
    out.append(ending.as_str());
    out.append("; exit: ");
    out.append(exit.as_str());
    out
}

fn say_fired(events: &Vec<Envelope>, at: usize, run_root: &str, hook: Hook) -> (r: String)
    requires
        at < events@.len(),
    ensures
        r@ == fired_line(events@, at as int, run_root@, hook),
{
    let payload = &events[at].payload;
    let reason: String = match json::field(payload, "reason") {
        Some(Json::Object(reason)) => match json::text_field(reason, "kind") {
            Some(kind) => text::one_line(kind.as_str()),
            None => text::one_line("none"),
        },
        _ => text::one_line("none"),
    };
    assert(at < events.len());
    let ended: String = match find_finished(events, hook, at + 1) {
        Some(i) => say_ended(&events[i].payload),
        None => "still running".to_owned(),
    };
    let log = log_path(run_root, hook);
    let mut out: String = String::from_str("  ");
    out.append(hook.as_str());
    out.append(" hook fired — reason: ");
    out.append(reason.as_str());
    out.append("; ");
    out.append(ended.as_str());
    out.append("; log: ");
    out.append(log.as_str());
    out.append("\n");
    out
}

fn say_withheld(payload: &Vec<(String, Json)>) -> (r: String)
    ensures
        r@ == withheld_line(payload@),
{
    let settlement: String = match json::text_field(payload, "settlement") {
        Some(settlement) => text::one_line(settlement.as_str()),
        None => text::one_line(PAUSED),
    };
    let mut out: String = String::from_str(
        "  run-end hook withheld — the run is paused on a decision (",
    );
    out.append(settlement.as_str());
    out.append("), so no hook fired\n");
    out
}

fn say_event(
    events: &Vec<Envelope>,
    at: usize,
    run_root: &str,
    success: &Tail,
    failure: &Tail,
) -> (r: String)
    requires
        at < events@.len(),
    ensures
        r@ == event_lines(events@, at as int, run_root@, *success, *failure),
{
    if is_kind(&events[at], PipelineKind::RunHookFired) {
        let hook: Option<Hook> = match json::text_field(&events[at].payload, "hook") {
            Some(word) => Hook::parse(word.as_str()),
            None => None,
        };
        match hook {
            None => String::new(),
            Some(hook) => {
                let mut out = say_fired(events, at, run_root, hook);
                let tail: String = match hook {
                    Hook::Success => say_tail(success),
                    Hook::Failure => say_tail(failure),
                };
                out.append(tail.as_str());
                out
            },
        }
    } else if is_kind(&events[at], PipelineKind::RunHookWithheld) {
        say_withheld(&events[at].payload)
    } else {
        String::new()
    }
}

/// What a view says about a run's hooks: each that fired — which, why, how it ended, its
/// exit, its log, and the tail of its output — and each let-go that withheld one.
pub fn results_lines(
    events: &Vec<Envelope>,
    run_root: &str,
    success: &Tail,
    failure: &Tail,
) -> (r: String)
    ensures
        r@ == results_text(events@, events@.len() as int, run_root@, *success, *failure),
{
    let mut out: String = String::new();
    let mut at: usize = 0;
    while at < events.len()
        invariant
            at <= events@.len(),
            out@ == results_text(events@, at as int, run_root@, *success, *failure),
        decreases events@.len() - at,
    {
        let lines = say_event(events, at, run_root, success, failure);
        out.append(lines.as_str());
        at += 1;
    }
    out
}

/// The hook command a launch names: the flag's presence beats the launch config's, and a
/// blank command is a launch saying it has none rather than a fall-through.
pub fn named(flag: Option<&str>, config: Option<&str>) -> (r: Option<String>)
    ensures
        text_of(r) == ({
            let given = match flag {
                Some(flag) => Some(flag@),
                None => match config {
                    Some(config) => Some(config@),
                    None => None,
                },
            };
            match given {
                Some(given) => if blank(given) {
                    None
                } else {
                    Some(trim(given))
                },
                None => None,
            }
        }),
{
    let given: &str = match flag {
        Some(flag) => flag,
        None => match config {
            Some(config) => config,
            None => {
                return None;
            },
        },
    };
    if text::is_blank(given) {
        None
    } else {
        Some(text::trimmed(given))
    }
}

/// The refusal for a hook timeout of zero, by the spelling that carried it.
pub fn refused_zero_timeout(spelling: &str) -> (r: String)
    ensures
        r@ == spelling@
            + " names a hook timeout of zero seconds, which ends every hook before it has begun — give it a positive whole number of seconds, or leave it out to take "@
            + dec(DEFAULT_HOOK_TIMEOUT_SECONDS as nat) + " seconds"@,
{
    let mut out: String = spelling.to_owned();
    out.append(
        " names a hook timeout of zero seconds, which ends every hook before it has begun — give it a positive whole number of seconds, or leave it out to take ",
    );
    text::push_dec(&mut out, DEFAULT_HOOK_TIMEOUT_SECONDS);
    out.append(" seconds");
    out
}

/// The words of the hooks, the reasons and the endings, and the bounds a hook runs and is
/// shown under.
pub proof fn law_the_words_of_a_hook()
    ensures
        Hook::Success.word() == "success"@,
        Hook::Failure.word() == "failure"@,
        ReasonKind::Nodes.word() == "nodes"@,
        ReasonKind::Unfinished.word() == "unfinished"@,
        ReasonKind::Stopped.word() == "stopped"@,
        Ending::Succeeded.word() == "succeeded"@,
        Ending::Failed.word() == "failed"@,
        Ending::CouldNotStart.word() == "could-not-start"@,
        Ending::TimedOut.word() == "timed-out"@,
        DOCUMENT_VERSION == 1,
        RESULTS_OUTPUT_LINES == 20,
        MAX_TAIL_BYTES == 65536,
        DEFAULT_HOOK_TIMEOUT_SECONDS == 600,
{
}

/// A hook is read from its own word and from no other.
pub proof fn law_only_its_word_names_a_hook(word: Seq<char>, hook: Hook)
    ensures
        Hook::read(word) == Some(hook) <==> word == hook.word(),
{
    law_a_hook_round_trips(Hook::Success);
    law_a_hook_round_trips(Hook::Failure);
}

/// What a run a driver has let go of amounts to, by what its graph holds.
///
/// A graph without a node has not ended. One every node of which is done succeeded,
/// whatever decision is outstanding. Otherwise an outstanding decision is a pause; a draft
/// waiting on its release is a run still going; and anything else failed — over its nodes
/// where one failed or was skipped, and as unfinished where none did.
pub proof fn law_how_a_run_is_judged(
    nodes: Seq<NodeModel>,
    statuses: StatusModel,
    outcomes: Map<Seq<char>, String>,
    decision: bool,
)
    ensures
        ({
            let judged = judgement(nodes, statuses, outcomes, decision);
            let any = exists|k: Seq<char>| #[trigger] statuses.contains_key(k);
            let done = forall|k: Seq<char>| #[trigger]
                statuses.contains_key(k) ==> statuses[k] == NodeStatus::Done;
            let draft = exists|k: Seq<char>| #[trigger]
                statuses.contains_key(k) && statuses[k] == NodeStatus::CompleteDraft;
            let broken = exists|k: Seq<char>| #[trigger]
                statuses.contains_key(k) && (statuses[k] == NodeStatus::Failed || statuses[k]
                    == NodeStatus::Skipped);
            &&& judged == JudgedModel::Fire(FiringModel::Success) <==> any && done
            &&& judged is Withhold <==> any && !done && decision
            &&& judged is NotEnded <==> !any || !done && !decision && draft
            &&& judged matches JudgedModel::Fire(FiringModel::Failure(kind, left)) ==> {
                &&& any && !done && !decision && !draft
                &&& left == left_over(nodes, statuses, outcomes)
                &&& kind == (if broken {
                    ReasonKind::Nodes
                } else {
                    ReasonKind::Unfinished
                })
            }
        }),
{
    if exists|k: Seq<char>| #[trigger]
        statuses.contains_key(k) && (statuses[k] == NodeStatus::Failed || statuses[k]
            == NodeStatus::Skipped) {
        let k = choose|k: Seq<char>| #[trigger]
            statuses.contains_key(k) && (statuses[k] == NodeStatus::Failed || statuses[k]
                == NodeStatus::Skipped);
        assert(some_at(statuses, NodeStatus::Failed) || some_at(statuses, NodeStatus::Skipped));
    }
}

/// A hook is handed every node that is not done, in the order of the plan, each with where
/// it stands and what its dispatch came to; a node nothing is known of is pending.
pub proof fn law_a_hook_is_handed_what_is_left(
    nodes: Seq<NodeModel>,
    statuses: StatusModel,
    outcomes: Map<Seq<char>, String>,
)
    ensures
        left_over(nodes, statuses, outcomes) == nodes.filter(
            |n: NodeModel|
                !statuses.contains_key(n.id) || statuses[n.id] != NodeStatus::Done,
        ).map_values(
            |n: NodeModel|
                (UnsettledModel {
                    id: n.id,
                    status: if statuses.contains_key(n.id) {
                        statuses[n.id]
                    } else {
                        NodeStatus::Pending
                    },
                    outcome: if outcomes.contains_key(n.id) {
                        Some(outcomes[n.id]@)
                    } else {
                        None
                    },
                }),
        ),
    decreases nodes.len(),
{
    reveal(Seq::filter);
    let keep = |n: NodeModel|
        !statuses.contains_key(n.id) || statuses[n.id] != NodeStatus::Done;
    let told = |n: NodeModel|
        (UnsettledModel {
            id: n.id,
            status: if statuses.contains_key(n.id) {
                statuses[n.id]
            } else {
                NodeStatus::Pending
            },
            outcome: if outcomes.contains_key(n.id) {
                Some(outcomes[n.id]@)
            } else {
                None
            },
        });
    if nodes.len() > 0 {
        law_a_hook_is_handed_what_is_left(nodes.drop_last(), statuses, outcomes);
        let before = nodes.drop_last().filter(keep);
        assert(before.push(nodes.last()).map_values(told) =~= before.map_values(told).push(
            told(nodes.last()),
        ));
    } else {
        assert(nodes.filter(keep).map_values(told) =~= Seq::empty());
    }
}

/// Each ending fires its own hook and no other: a success the success command, any other
/// ending the failure command, and an ending whose command the launch does not name fires
/// nothing. A pause is recorded as one, and a run that has not ended owes nothing.
pub proof fn law_each_ending_fires_its_own_hook(
    r: LetGo,
    judged: JudgedModel,
    success: Option<Seq<char>>,
    failure: Option<Seq<char>>,
)
    requires
        owes(r, judged, success, failure, false),
    ensures
        judged == JudgedModel::Fire(FiringModel::Success) ==> match success {
            Some(command) => r matches LetGo::Fire(fire) && fire.command@ == command
                && fire.firing is Success,
            None => r is Nothing,
        },
        judged is Fire && judged->Fire_0 is Failure ==> match failure {
            Some(command) => r matches LetGo::Fire(fire) && fire.command@ == command
                && fire.firing is Failure && fire.firing@ == judged->Fire_0,
            None => r is Nothing,
        },
        judged is Withhold ==> (r is Withhold <==> success is Some || failure is Some),
        judged is Withhold && success is None && failure is None ==> r is Nothing,
        judged is NotEnded ==> r is Nothing,
{
}

/// What a hook's process came to: only a success exits zero, only a hook that exited has a
/// code, and each way of ending is told as itself.
pub proof fn law_what_a_hook_came_to(ran: Ran)
    ensures
        ran.ended() == Ending::Succeeded <==> ran is Succeeded,
        ran.ended() == Ending::Failed <==> ran is Failed,
        ran.ended() == Ending::CouldNotStart <==> ran is CouldNotStart,
        ran.ended() == Ending::TimedOut <==> ran is TimedOut,
        ran is Succeeded ==> ran.exited() == Some(0i32),
        ran matches Ran::Failed(code) ==> ran.exited() == code,
        ran is CouldNotStart || ran is TimedOut ==> ran.exited() is None,
{
}

/// A hook is told which it is, of which run and where, and — where the run is somebody's —
/// whose; a run that is nobody's hands nobody on.
pub proof fn law_what_a_hook_is_told(
    hook: Hook,
    run: Seq<char>,
    root: Seq<char>,
    launcher: Seq<char>,
    session: Seq<char>,
)
    ensures
        ({
            let set = hook_environment(hook, run, root, launcher, session);
            &&& set.len() >= 3
            &&& set[0] == ("ONEPIPELINE_HOOK"@, hook.word())
            &&& set[1] == ("ONEPIPELINE_RUN_ID"@, run)
            &&& set[2] == ("ONEPIPELINE_RUN_ROOT"@, root)
            &&& ledger::owned(session, session) ==> set.len() == 5 && set[3] == (
                "ONEPIPELINE_LAUNCHER"@,
                launcher,
            ) && set[4] == ("ONEPIPELINE_LAUNCHER_SESSION"@, session)
            &&& !ledger::owned(session, session) ==> set.len() == 3
        }),
{
    reveal_strlit("ONEPIPELINE_HOOK");
    reveal_strlit("ONEPIPELINE_RUN_ID");
    reveal_strlit("ONEPIPELINE_RUN_ROOT");
    reveal_strlit("ONEPIPELINE_LAUNCHER");
    reveal_strlit("ONEPIPELINE_LAUNCHER_SESSION");
}

/// A view repeats the last twenty lines of a log and no more, and never a line it began to
/// read in the middle of.
pub proof fn law_a_view_repeats_the_last_whole_lines(lines: Seq<Seq<char>>, mid_file: bool)
    ensures
        ({
            let told = tail_of(lines, mid_file);
            let cut = if mid_file && lines.len() > 0 { 1int } else { 0int };
            &&& told.len() <= 20
            &&& lines.len() - cut <= 20 ==> told.len() == lines.len() - cut
            &&& lines.len() - cut > 20 ==> told.len() == 20
            &&& forall|i: int|
                0 <= i < told.len() ==> #[trigger] told[i] == lines[lines.len() - told.len() + i]
        }),
{
}

/// How a fired hook ended is read from the first record behind its marker that tells of
/// that hook's end; where there is none, the hook is still running.
pub proof fn law_a_hooks_end_is_the_first_told_behind_its_marker(
    events: Seq<Envelope>,
    hook: Hook,
    from: int,
)
    requires
        0 <= from <= events.len(),
    ensures
        match finished_at(events, hook, from) {
            Some(i) => {
                &&& from <= i < events.len()
                &&& events[i].kind.0@ == "run-hook-finished"@
                &&& text_in(field_in(events[i].payload@, "hook"@)) == Some(hook.word())
                &&& forall|j: int|
                    from <= j < i ==> (#[trigger] events[j]).kind.0@ != "run-hook-finished"@
                        || text_in(field_in(events[j].payload@, "hook"@)) != Some(hook.word())
            },
            None => forall|j: int|
                from <= j < events.len() ==> (#[trigger] events[j]).kind.0@ != "run-hook-finished"@
                    || text_in(field_in(events[j].payload@, "hook"@)) != Some(hook.word()),
        },
    decreases events.len() - from,
{
    if from < events.len() {
        law_a_hooks_end_is_the_first_told_behind_its_marker(events, hook, from + 1);
    }
}

/// A view speaks of a run's hooks only where one fired or was withheld, and gives each
/// hook the tail of its own log.
pub proof fn law_a_view_speaks_of_what_fired_or_was_withheld(
    events: Seq<Envelope>,
    at: int,
    root: Seq<char>,
    success: Tail,
    failure: Tail,
)
    requires
        0 <= at < events.len(),
    ensures
        ({
            let told = event_lines(events, at, root, success, failure);
            let named = text_in(field_in(events[at].payload@, "hook"@));
            &&& events[at].kind.0@ != "run-hook-fired"@ && events[at].kind.0@
                != "run-hook-withheld"@ ==> told.len() == 0
            &&& events[at].kind.0@ == "run-hook-fired"@ && named == Some("success"@) ==> told
                == fired_line(events, at, root, Hook::Success) + tail_text(success)
            &&& events[at].kind.0@ == "run-hook-fired"@ && named == Some("failure"@) ==> told
                == fired_line(events, at, root, Hook::Failure) + tail_text(failure)
            &&& events[at].kind.0@ == "run-hook-fired"@ && named != Some("success"@) && named
                != Some("failure"@) ==> told.len() == 0
            &&& events[at].kind.0@ == "run-hook-withheld"@ ==> told == withheld_line(
                events[at].payload@,
            )
        }),
{
    law_only_its_word_names_a_hook("success"@, Hook::Success);
    law_only_its_word_names_a_hook("failure"@, Hook::Failure);
    reveal_strlit("run-hook-fired");
    reveal_strlit("run-hook-withheld");
    assert("run-hook-fired"@.len() == 14 && "run-hook-withheld"@.len() == 17);
}

/// A number of a payload is read as a whole one or not at all, and what is written of an
/// exit reads back as that exit.
pub proof fn law_an_exit_reads_back(code: i32)
    ensures
        integer_in(Some(number(code))) == Some(code as int),
        integer_in(None) is None,
        integer_in(Some(Json::Null)) is None,
{
}

/// A node that was not done is seen whole.
pub proof fn law_a_node_left_over_is_seen_whole(value: Unsettled)
    ensures
        value@.id == value.id@,
        value@.status == value.status,
        value.outcome is None <==> value@.outcome is None,
        value.outcome matches Some(s) ==> value@.outcome == Some(s@),
{
}

/// A firing is seen whole: a success as one, and a failure with its reason and every node it names.
pub proof fn law_a_firing_is_seen_whole(value: Firing)
    ensures
        value is Success <==> value@ is Success,
        value matches Firing::Failure(reason) ==> value@ is Failure && value@->Failure_0
            == reason.kind && value@->Failure_1.len() == reason.nodes@.len() && forall|i: int|
            0 <= i < reason.nodes@.len() ==> #[trigger] value@->Failure_1[i] == reason.nodes@[i]@,
{
}

/// A judgement is seen whole.
pub proof fn law_a_judgement_is_seen_whole(value: Judged)
    ensures
        value is Withhold <==> value@ is Withhold,
        value is NotEnded <==> value@ is NotEnded,
        value matches Judged::Fire(firing) ==> value@ == JudgedModel::Fire(firing@),
{
}

/// The document a hook reads says, in this order, its version, which hook it is, the run,
/// where that run lies, and why it fired.
pub proof fn law_what_a_hook_reads(
    value: Json,
    run: Seq<char>,
    root: Seq<char>,
    firing: FiringModel,
)
    requires
        is_document(value, run, root, firing),
    ensures
        value is Object,
        ({
            let fields = value->Object_0@;
            &&& fields.len() == 5
            &&& fields[0].0@ == "version"@ && fields[0].1 == Json::Count(1)
            &&& fields[1].0@ == "hook"@ && fields[1].1 is Text
            &&& firing is Success ==> fields[1].1->Text_0@ == "success"@
            &&& firing is Failure ==> fields[1].1->Text_0@ == "failure"@
            &&& fields[2].0@ == "run_id"@ && fields[2].1 is Text && fields[2].1->Text_0@ == run
            &&& fields[3].0@ == "run_root"@ && fields[3].1 is Text && fields[3].1->Text_0@ == root
            &&& fields[4].0@ == "reason"@ && writes_reason(fields[4].1, firing)
        }),
{
    let fields = value->Object_0@;
    let names = record::names(fields);
    assert(names[0] == fields[0].0@ && names[1] == fields[1].0@ && names[2] == fields[2].0@
        && names[3] == fields[3].0@ && names[4] == fields[4].0@);
}

/// A success is written without a reason; a failure with its kind and every node it names,
/// each by its id, its status and what its dispatch came to.
pub proof fn law_how_a_reason_is_written(value: Json, firing: FiringModel)
    requires
        writes_reason(value, firing),
    ensures
        firing is Success <==> value is Null,
        firing matches FiringModel::Failure(kind, nodes) ==> value is Object && {
            let fields = value->Object_0@;
            &&& fields.len() == 2
            &&& fields[0].0@ == "kind"@ && fields[0].1 is Text && fields[0].1->Text_0@ == kind.word()
            &&& fields[1].0@ == "nodes"@ && fields[1].1 is List && fields[1].1->List_0@.len()
                == nodes.len()
            &&& forall|i: int|
                0 <= i < nodes.len() ==> {
                    let one = #[trigger] fields[1].1->List_0@[i];
                    &&& one is Object && one->Object_0@.len() == 3
                    &&& one->Object_0@[0].0@ == "id"@ && one->Object_0@[0].1 is Text
                        && one->Object_0@[0].1->Text_0@ == nodes[i].id
                    &&& one->Object_0@[1].0@ == "status"@ && one->Object_0@[1].1 is Text
                        && one->Object_0@[1].1->Text_0@ == nodes[i].status.word()
                    &&& one->Object_0@[2].0@ == "outcome"@
                    &&& nodes[i].outcome is None ==> one->Object_0@[2].1 is Null
                    &&& nodes[i].outcome is Some ==> one->Object_0@[2].1 is Text
                        && one->Object_0@[2].1->Text_0@ == nodes[i].outcome->0
                }
        },
{
    if firing is Failure {
        let fields = value->Object_0@;
        let nodes = firing->Failure_1;
        let names = record::names(fields);
        assert(names[0] == fields[0].0@ && names[1] == fields[1].0@);
        assert forall|i: int| 0 <= i < nodes.len() implies ({
            let one = #[trigger] fields[1].1->List_0@[i];
            &&& one is Object && one->Object_0@.len() == 3
            &&& one->Object_0@[0].0@ == "id"@
            &&& one->Object_0@[1].0@ == "status"@
            &&& one->Object_0@[2].0@ == "outcome"@
        }) by {
            let one = fields[1].1->List_0@[i];
            assert(writes_unsettled(one, nodes[i]));
            let inner = record::names(one->Object_0@);
            assert(inner[0] == one->Object_0@[0].0@ && inner[1] == one->Object_0@[1].0@ && inner[2]
                == one->Object_0@[2].0@);
        }
        assert forall|i: int| 0 <= i < nodes.len() implies writes_unsettled(
            #[trigger] fields[1].1->List_0@[i],
            nodes[i],
        ) by {}
    }
}

/// A hook's output is kept under the run's own directory, each hook's apart.
pub proof fn law_where_a_hooks_output_is_kept(root: Seq<char>)
    ensures
        log_at(root, Hook::Success) == joined(joined(root, "hooks"@), "success"@ + ".log"@),
        log_at(root, Hook::Failure) == joined(joined(root, "hooks"@), "failure"@ + ".log"@),
{
}

/// What a view says of a fired hook: its word, the kind of its reason or that there is
/// none, and then how it ended with its exit — or that it is still running.
pub proof fn law_what_a_view_says_of_a_fired_hook(
    events: Seq<Envelope>,
    at: int,
    root: Seq<char>,
    hook: Hook,
)
    requires
        0 <= at < events.len(),
    ensures
        ({
            let reason = field_in(events[at].payload@, "reason"@);
            let kind = match reason {
                Some(Json::Object(fields)) => text_in(field_in(fields@, "kind"@)),
                _ => None,
            };
            let why = match kind {
                Some(kind) => kind,
                None => "none"@,
            };
            let end = finished_at(events, hook, at + 1);
            let ended = match end {
                None => "still running"@,
                Some(i) => {
                    let ending = text_in(field_in(events[i].payload@, "ending"@));
                    let exit = integer_in(field_in(events[i].payload@, "exit"@));
                    "ending: "@ + one_lined(
                        match ending {
                            Some(ending) => ending,
                            None => "unrecorded"@,
                        },
                    ) + "; exit: "@ + (match exit {
                        Some(code) => dec_int(code),
                        None => "none"@,
                    })
                },
            };
            fired_line(events, at, root, hook) == "  "@ + hook.word() + " hook fired — reason: "@
                + one_lined(why) + "; "@ + ended + "; log: "@ + log_at(root, hook) + "\n"@
        }),
{
}

/// A view speaks of every event in turn: what it says of a run with one more event is what
/// it said, and then what it says of that one.
pub proof fn law_a_view_speaks_of_every_event_in_turn(
    events: Seq<Envelope>,
    n: int,
    root: Seq<char>,
    success: Tail,
    failure: Tail,
)
    requires
        0 <= n < events.len(),
    ensures
        results_text(events, 0, root, success, failure).len() == 0,
        results_text(events, n + 1, root, success, failure) == results_text(
            events,
            n,
            root,
            success,
            failure,
        ) + event_lines(events, n, root, success, failure),
{
}

/// What is repeated of a hook's log is every line of its tail, in order and each on one
/// line; a log that could not be read is said to be unread, and one that is absent is not
/// spoken of.
pub proof fn law_what_is_repeated_of_a_log(lines: Seq<Seq<char>>, one: Seq<char>, tail: Tail)
    ensures
        output_lines(Seq::empty()).len() == 0,
        output_lines(lines.push(one)) == output_lines(lines) + ("      output: "@ + one_lined(one)
            + "\n"@),
        tail is Absent ==> tail_text(tail).len() == 0,
        tail matches Tail::Unread(why) ==> tail_text(tail) == "      log not read: "@ + one_lined(
            why@,
        ) + "\n"@,
        tail matches Tail::Lines(list) ==> tail_text(tail) == output_lines(texts(list@)),
{
    assert(lines.push(one).drop_last() =~= lines);
}

/// An exit is read from a whole number that fits one, whichever sign it has, and from
/// nothing else.
pub proof fn law_which_values_are_exits(n: u64, debt: i64, value: Json)
    ensures
        n <= 0x7fff_ffff_ffff_ffff ==> integer_in(Some(Json::Count(n))) == Some(n as int),
        n > 0x7fff_ffff_ffff_ffff ==> integer_in(Some(Json::Count(n))) is None,
        integer_in(Some(Json::Debt(debt))) == Some(debt as int),
        !(value is Count) && !(value is Debt) ==> integer_in(Some(value)) is None,
        integer_in(None) is None,
{
}

} // verus!
