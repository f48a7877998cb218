//! Lifecycle nodes: what becomes of a node whose work happens on a branch.
//!
//! A lifecycle node names a `repo`, so its work happens on an isolated branch and
//! is published through that repository's registered policy. The branch, the
//! worktree and the publication belong to the version-control library and the
//! dispatch inside them to the agent-graph one; what is decided here is which
//! step is dispatched next and where, what a publication's answer settles the
//! node as, and whether a failed publication is attempted again.
use vstd::prelude::*;

use crate::controls::NodeControls;
use crate::event::Envelope;
use crate::filter::EventFilter;
use crate::json;
use crate::json::{field_in, flag_in, text_in, values_of, Json, JsonModel};
use crate::names::NameMap;
use crate::plan::{copy_strings, copy_text, Node, NodeKind, NodeModel, Step, StepModel};
use crate::status::{Landing, NodeStatus};
use crate::steps::{dispatch_order, dispatchable_steps, steps_of, workstream_stop};
use crate::text;
use crate::text::{blank, bound, dec, join, one_lined, text_of, texts, trim};

pub use crate::event::stamp;
pub use crate::steps::ordered_steps;
pub use crate::validate::PR_AUTHOR_PERSONA;

verus! {

/// What a run's launch decides about a lifecycle node's dispatches.
pub struct Launch {
    /// The agent-graph config every dispatch launches, unless the node or the step
    /// names one of its own.
    pub node_graph: String,
    /// The agent graph a change request's body is drafted by, when the launch
    /// named one.
    pub pr_author_graph: Option<String>,
    /// What every followed session's stream is read through.
    pub vcs_filter: Option<EventFilter>,
}

/// How one node settled.
#[derive(Debug, PartialEq, Eq)]
pub struct Settlement {
    /// The node.
    pub node: String,
    /// Where it got to.
    pub status: NodeStatus,
    /// What its work ended as, in one word.
    pub outcome: Option<String>,
    /// What a reader is told about it.
    pub detail: Option<String>,
    /// The branch its work is on.
    pub branch: Option<String>,
    /// Where its change is.
    pub change_url: Option<String>,
    /// Whether its change reached its base.
    pub landing: Option<Landing>,
    /// The steps its branch carries.
    pub completed_steps: Vec<String>,
}

/// A settlement as contracts speak of it.
#[verifier::ext_equal]
pub struct SettlementModel {
    pub node: Seq<char>,
    pub status: NodeStatus,
    pub outcome: Option<Seq<char>>,
    pub detail: Option<Seq<char>>,
    pub branch: Option<Seq<char>>,
    pub change_url: Option<Seq<char>>,
    pub landing: Option<Landing>,
    pub completed_steps: Seq<Seq<char>>,
}

impl View for Settlement {
    type V = SettlementModel;

    open spec fn view(&self) -> SettlementModel {
        SettlementModel {
            node: self.node@,
            status: self.status,
            outcome: text_of(self.outcome),
            detail: text_of(self.detail),
            branch: text_of(self.branch),
            change_url: text_of(self.change_url),
            landing: self.landing,
            completed_steps: texts(self.completed_steps@),
        }
    }
}

/// A settlement that says where a node got to and nothing more.
pub open spec fn plainly(
    node: Seq<char>,
    status: NodeStatus,
    outcome: Option<Seq<char>>,
) -> SettlementModel {
    SettlementModel {
        node,
        status,
        outcome,
        detail: None,
        branch: None,
        change_url: None,
        landing: None,
        completed_steps: Seq::empty(),
    }
}

impl Settlement {
    /// A settlement that says where a node got to and nothing more.
    pub fn plain(node: &String, status: NodeStatus, outcome: Option<&str>) -> (r: Self)
        ensures
            r@ == plainly(
                node@,
                status,
                match outcome {
                    Some(word) => Some(word@),
                    None => None,
                },
            ),
    {
        Settlement {
            node: node.clone(),
            status,
            outcome: match outcome {
                Some(word) => Some(word.to_owned()),
                None => None,
            },
            detail: None,
            branch: None,
            change_url: None,
            landing: None,
            completed_steps: Vec::new(),
        }
    }
}

/// Why a publication did not land, as the version-control library names it.
#[derive(Debug, Clone, Copy, PartialEq, Eq, Structural)]
pub enum FailureKind {
    /// The identity's own gate.
    Gate,
    /// The request was not one it accepts.
    Invalid,
    /// The base moved under the branch and the two conflict.
    SyncConflict,
    /// This build has no host for the identity.
    NotImplemented,
    /// The change's checks failed.
    ChecksFailed,
    /// The change's checks did not settle in time.
    ChecksUnsettled,
    /// The merge path refused the push.
    PushRejected,
    /// The push landed and nothing verified it.
    PushedUnverified,
    /// Something the host needs is missing.
    HostPrerequisite,
    /// The publication was asked to stop.
    Cancelled,
}

/// A failure that rejected the tree and not the node: the branch still carries
/// the work, and a further attempt could answer it.
#[derive(Debug, Clone, Copy, PartialEq, Eq, Structural)]
pub enum Preserving {
    /// The change's checks failed.
    ChecksFailed,
    /// The change's checks did not settle in time.
    ChecksUnsettled,
    /// The merge path refused the push.
    PushRejected,
    /// The push landed and nothing verified it.
    PushedUnverified,
    /// The base moved under the branch and the two conflict.
    SyncConflict,
}

impl Preserving {
    /// The word a node settles on for this failure.
    pub open spec fn word(self) -> Seq<char> {
        match self {
            Preserving::ChecksFailed => "checks-failed"@,
            Preserving::ChecksUnsettled => "checks-unsettled"@,
            Preserving::PushRejected => "push-rejected"@,
            Preserving::PushedUnverified => "pushed-unverified"@,
            Preserving::SyncConflict => "sync-conflict"@,
        }
    }

    /// The word a node settles on for this failure.
    pub fn outcome(self) -> (r: &'static str)
        ensures
            r@ == self.word(),
    {
        match self {
            Preserving::ChecksFailed => "checks-failed",
            Preserving::ChecksUnsettled => "checks-unsettled",
            Preserving::PushRejected => "push-rejected",
            Preserving::PushedUnverified => "pushed-unverified",
            Preserving::SyncConflict => "sync-conflict",
        }
    }
}

/// The failure a further attempt could answer, where it is one.
pub open spec fn preserving(kind: FailureKind) -> Option<Preserving> {
    match kind {
        FailureKind::ChecksFailed => Some(Preserving::ChecksFailed),
        FailureKind::ChecksUnsettled => Some(Preserving::ChecksUnsettled),
        FailureKind::PushRejected => Some(Preserving::PushRejected),
        FailureKind::PushedUnverified => Some(Preserving::PushedUnverified),
        FailureKind::SyncConflict => Some(Preserving::SyncConflict),
        _ => None,
    }
}

/// The failure a further attempt could answer, where it is one.
pub fn failure_of(kind: FailureKind) -> (r: Option<Preserving>)
    ensures
        r == preserving(kind),
{
    match kind {
        FailureKind::ChecksFailed => Some(Preserving::ChecksFailed),
        FailureKind::ChecksUnsettled => Some(Preserving::ChecksUnsettled),
        FailureKind::PushRejected => Some(Preserving::PushRejected),
        FailureKind::PushedUnverified => Some(Preserving::PushedUnverified),
        FailureKind::SyncConflict => Some(Preserving::SyncConflict),
        _ => None,
    }
}

/// The word a failed publication settles a node on.
pub open spec fn failure_word(kind: FailureKind) -> Seq<char> {
    match preserving(kind) {
        Some(outcome) => outcome.word(),
        None => "publication-failed"@,
    }
}

/// One artifact a failed publication recorded.
#[derive(Debug, PartialEq, Eq)]
pub struct Evidence {
    /// What kind of artifact it is.
    pub kind: String,
    /// What it is fetched by.
    pub id: String,
}

/// A publication that failed and handed its branch back.
#[derive(Debug, PartialEq, Eq)]
pub struct Preserved {
    /// The branch that still carries the work.
    pub branch: String,
    /// What the publication ended with.
    pub outcome: Preserving,
    /// What it said, bounded and on one line.
    pub reason: String,
    /// What it recorded.
    pub evidence: Vec<Evidence>,
    /// Why the change request's body was not drafted, where it was not.
    pub undrafted: Option<String>,
}

/// A failed publication as contracts speak of it.
#[verifier::ext_equal]
pub struct PreservedModel {
    pub branch: Seq<char>,
    pub outcome: Preserving,
    pub reason: Seq<char>,
    pub evidence: Seq<(Seq<char>, Seq<char>)>,
    pub undrafted: Option<Seq<char>>,
}

/// The artifacts of a list, as contracts speak of them.
pub open spec fn exhibits(list: Seq<Evidence>) -> Seq<(Seq<char>, Seq<char>)> {
    list.map_values(|e: Evidence| (e.kind@, e.id@))
}

impl View for Preserved {
    type V = PreservedModel;

    open spec fn view(&self) -> PreservedModel {
        PreservedModel {
            branch: self.branch@,
            outcome: self.outcome,
            reason: self.reason@,
            evidence: exhibits(self.evidence@),
            undrafted: text_of(self.undrafted),
        }
    }
}

/// How one attempt at a lifecycle node ended.
///
/// A settlement is the node's answer and the loop stops on it; a publication that
/// failed leaving the work on its branch is an attempt rather than an answer.
#[derive(Debug, PartialEq, Eq)]
pub enum Attempt {
    /// The node's answer.
    Settled(Settlement),
    /// An attempt that left its work behind.
    Preserving(Preserved),
}

/// A publication's own words and a drafting ending, in that order.
pub open spec fn composed(detail: Seq<char>, undrafted: Option<Seq<char>>) -> Seq<char> {
    match undrafted {
        Some(why) => detail + ". "@ + why,
        None => detail,
    }
}

/// A publication's own words and a drafting ending, in that order.
pub fn compose(detail: &str, undrafted: &Option<String>) -> (r: String)
    ensures
        r@ == composed(detail@, text_of(*undrafted)),
{
    let mut out: String = String::from_str(detail);
    if let Some(why) = undrafted {
        out.append(". ");
        out.append(why.as_str());
    }
    out
}

/// A drafting dispatch that produced no body, and how.
///
/// Three endings kept apart, because they need three different fixes: a graph
/// that will not start or will not finish, one whose answers the schema refuses,
/// and one that answers inside the schema with nothing in it.
#[derive(Debug, PartialEq, Eq)]
pub enum Undrafted {
    /// It could not be run, or it ran and did not succeed — in its own words.
    Dispatch(String),
    /// It succeeded, and the schema it was validated against refused every answer.
    SchemaRefused,
    /// It succeeded and there was no body in what it answered with.
    Bodyless,
}

impl Undrafted {
    /// The ending, as the event names it.
    pub open spec fn word(&self) -> Seq<char> {
        match self {
            Undrafted::Dispatch(_) => "dispatch-failed"@,
            Undrafted::SchemaRefused => "schema-refused"@,
            Undrafted::Bodyless => "no-body"@,
        }
    }

    /// Why the change request opened with no body.
    pub open spec fn reason(&self) -> Seq<char> {
        match self {
            Undrafted::Dispatch(reason) => "the change request's body was not drafted: "@ + reason@,
            Undrafted::SchemaRefused =>
                "the change request's body was not drafted: the drafting dispatch answered nothing the schema it was validated against accepted"@,
            Undrafted::Bodyless =>
                "the change request's body was not drafted: the drafting dispatch succeeded and there was no body in what it answered with"@,
        }
    }

    /// The ending, as the event names it.
    pub fn ending(&self) -> (r: &'static str)
        ensures
            r@ == self.word(),
    {
        match self {
            Undrafted::Dispatch(_) => "dispatch-failed",
            Undrafted::SchemaRefused => "schema-refused",
            Undrafted::Bodyless => "no-body",
        }
    }

    /// Why the change request opened with no body, in the words a planner reads.
    pub fn why(&self) -> (r: String)
        ensures
            r@ == self.reason(),
    {
        match self {
            Undrafted::Dispatch(reason) => {
                let mut out: String = String::from_str(
                    "the change request's body was not drafted: ",
                );
                out.append(reason.as_str());
                out
            },
            Undrafted::SchemaRefused => {
                "the change request's body was not drafted: the drafting dispatch answered nothing the schema it was validated against accepted".to_owned()
            },
            Undrafted::Bodyless => {
                "the change request's body was not drafted: the drafting dispatch succeeded and there was no body in what it answered with".to_owned()
            },
        }
    }
}

/// What one drafting dispatch ended as.
#[derive(Debug, PartialEq, Eq)]
pub enum Drafted {
    /// It drafted the change request's body.
    Body(String),
    /// It ended with none.
    Undrafted(Undrafted),
}

/// How the reports a successful drafting dispatch retained read, taken together.
#[derive(Debug, PartialEq, Eq)]
pub enum Report {
    /// They hold a body.
    Body(String),
    /// The schema refused every answer.
    SchemaRefused,
    /// They hold no body.
    Bodyless,
}

/// What became of a drafting dispatch.
pub enum Drafting {
    /// It could not start.
    Unstarted(String),
    /// It could not be waited on.
    Lost(String),
    /// It settled without succeeding, saying this.
    Failed(String),
    /// It succeeded, and its reports read like this.
    Succeeded(Report),
}

/// The first line of a text that says anything, trimmed and bounded.
pub open spec fn said_first(lines: Seq<Seq<char>>, from: int) -> Seq<char>
    decreases lines.len() - from,
{
    if from < 0 || from >= lines.len() {
        "it reported nothing"@
    } else if !blank(lines[from]) {
        bound(trim(lines[from]))
    } else {
        said_first(lines, from + 1)
    }
}

/// A dispatch's own words, as one bounded line of a settlement detail.
pub fn first_line(detail: &str) -> (r: String)
    ensures
        r@ == said_first(text::lines(detail@), 0),
{
    let lines = text::lines_of(detail);
    let mut i: usize = 0;
    while i < lines.len()
        invariant
            i <= lines@.len(),
            texts(lines@) == text::lines(detail@),
            said_first(text::lines(detail@), 0) == said_first(text::lines(detail@), i as int),
        decreases lines@.len() - i,
    {
        assert(text::lines(detail@)[i as int] == lines@[i as int]@);
        if !text::is_blank(lines[i].as_str()) {
            let line = text::trimmed(lines[i].as_str());
            return text::bounded(line.as_str());
        }
        i += 1;
    }
    "it reported nothing".to_owned()
}

/// What a drafting dispatch's ending amounts to: a body only where it succeeded
/// and its reports hold one.
pub open spec fn drafted_as(ending: Drafting) -> (Option<Seq<char>>, Option<Seq<char>>) {
    match ending {
        Drafting::Unstarted(why) => (
            None,
            Some("the drafting dispatch could not start: "@ + why@),
        ),
        Drafting::Lost(why) => (
            None,
            Some("the drafting dispatch could not be waited on: "@ + why@),
        ),
        Drafting::Failed(detail) => (
            None,
            Some(
                "the drafting dispatch settled without succeeding: "@ + said_first(
                    text::lines(detail@),
                    0,
                ),
            ),
        ),
        Drafting::Succeeded(Report::Body(body)) => (Some(body@), None),
        Drafting::Succeeded(_) => (None, None),
    }
}

/// What one drafting dispatch ended as.
pub fn drafted(ending: Drafting) -> (r: Drafted)
    ensures
        match r {
            Drafted::Body(body) => drafted_as(ending).0 == Some(body@),
            Drafted::Undrafted(Undrafted::Dispatch(why)) => drafted_as(ending).1 == Some(why@),
            Drafted::Undrafted(Undrafted::SchemaRefused) => ending == Drafting::Succeeded(
                Report::SchemaRefused,
            ),
            Drafted::Undrafted(Undrafted::Bodyless) => ending == Drafting::Succeeded(
                Report::Bodyless,
            ),
        },
{
    match ending {
        Drafting::Unstarted(why) => {
            let mut out: String = String::from_str("the drafting dispatch could not start: ");
            out.append(why.as_str());
            Drafted::Undrafted(Undrafted::Dispatch(out))
        },
        Drafting::Lost(why) => {
            let mut out: String = String::from_str(
                "the drafting dispatch could not be waited on: ",
            );
            out.append(why.as_str());
            Drafted::Undrafted(Undrafted::Dispatch(out))
        },
        Drafting::Failed(detail) => {
            let line = first_line(detail.as_str());
            let mut out: String = String::from_str(
                "the drafting dispatch settled without succeeding: ",
            );
            out.append(line.as_str());
            Drafted::Undrafted(Undrafted::Dispatch(out))
        },
        Drafting::Succeeded(Report::Body(body)) => Drafted::Body(body),
        Drafting::Succeeded(Report::SchemaRefused) => Drafted::Undrafted(Undrafted::SchemaRefused),
        Drafting::Succeeded(Report::Bodyless) => Drafted::Undrafted(Undrafted::Bodyless),
    }
}

/// The task a drafting dispatch is given, ahead of the node's own.
pub const DRAFTING_TASK: &'static str =
    "Read this branch's diff and write the change request's body, following the repository's own template. The task this branch delivered:";

/// The task of a drafting dispatch made outside a run: the branch, what it lands on, and
/// its commits in place of a node's task.
pub fn out_of_band_drafting_task(branch: &str, base: &str, commits: &str) -> (r: String)
    ensures
        r@ == DRAFTING_TASK@ + "\n\n"@ + branch@ + " onto "@ + base@
            + ", by these commits, oldest first:\n\n"@ + commits@,
{
    let mut task: String = String::from_str(DRAFTING_TASK);
    task.append("\n\n");
    task.append(branch);
    task.append(" onto ");
    task.append(base);
    task.append(", by these commits, oldest first:\n\n");
    task.append(commits);
    task
}

/// The drafting dispatch a publication needs.
pub enum DraftPlan {
    /// None: the plan wrote the body itself.
    Written(String),
    /// None: the launch named no drafting graph, which is no failure.
    Undrafted,
    /// One that cannot be run: there is nowhere the branch's diff can be read.
    Nowhere,
    /// One in the worktree of the node, under a graph and asked a question.
    Dispatch {
        /// The graph it runs under.
        graph: String,
        /// What it is asked.
        task: String,
        /// Where it runs.
        worktree: String,
    },
}

/// What is said where there is no worktree to draft in.
pub const NO_WORKTREE: &'static str = "there was no worktree to read this branch's diff in";

/// Which drafting dispatch a publication needs. The plan's own body wins outright
/// and spends no dispatch.
pub fn draft_plan(
    launch: &Launch,
    node: &Node,
    rendered_task: &str,
    worktree: &Option<String>,
) -> (r: DraftPlan)
    ensures
        match r {
            DraftPlan::Written(body) => node@.body == Some(body@),
            DraftPlan::Undrafted => node@.body is None && launch.pr_author_graph is None,
            DraftPlan::Nowhere => node@.body is None && launch.pr_author_graph is Some
                && worktree is None,
            DraftPlan::Dispatch { graph, task, worktree: at } => {
                &&& node@.body is None
                &&& text_of(launch.pr_author_graph) == Some(graph@)
                &&& text_of(*worktree) == Some(at@)
                &&& task@ == DRAFTING_TASK@ + "\n\n"@ + rendered_task@
            },
        },
{
    if let Some(body) = &node.body {
        return DraftPlan::Written(body.clone());
    }
    match (&launch.pr_author_graph, worktree) {
        (None, _) => DraftPlan::Undrafted,
        (Some(_), None) => DraftPlan::Nowhere,
        (Some(graph), Some(worktree)) => {
            let mut task: String = String::from_str(DRAFTING_TASK);
            task.append("\n\n");
            task.append(rendered_task);
            DraftPlan::Dispatch { graph: graph.clone(), task, worktree: worktree.clone() }
        },
    }
}

/// What the answer of a settled member says of a body: the body, or that the schema
/// refused every answer, or nothing.
pub open spec fn answered(payload: Seq<(String, Json)>) -> Option<(Option<Seq<char>>, bool)> {
    match field_in(payload, "answer"@) {
        Some(Json::Object(fields)) => if text_in(field_in(fields@, "body"@)) is Some {
            Some((text_in(field_in(fields@, "body"@)), false))
        } else if flag_in(field_in(fields@, "schema_refused"@)) {
            Some((None, true))
        } else {
            None
        },
        _ => None,
    }
}

/// How the event a drafting member settles with reads as a report, where it says
/// anything of a body.
pub fn reported(payload: &Vec<(String, Json)>) -> (r: Option<Report>)
    ensures
        match r {
            Some(Report::Body(body)) => answered(payload@) == Some((Some(body@), false)),
            Some(Report::SchemaRefused) => answered(payload@) == Some((None::<Seq<char>>, true)),
            Some(Report::Bodyless) => false,
            None => answered(payload@) is None,
        },
{
    let fields = match json::field(payload, "answer") {
        Some(Json::Object(fields)) => fields,
        _ => {
            return None;
        },
    };
    match json::text_field(fields, "body") {
        Some(body) => Some(Report::Body(body.clone())),
        None => if json::flag_field(fields, "schema_refused") {
            Some(Report::SchemaRefused)
        } else {
            None
        },
    }
}

/// What a step's dispatch settles as: done, or failed with the first line of what it
/// said.
pub open spec fn dispatch_settles(
    node: Seq<char>,
    succeeded: bool,
    detail: Seq<char>,
) -> SettlementModel {
    if succeeded {
        plainly(node, NodeStatus::Done, None)
    } else {
        SettlementModel {
            detail: Some(said_first(text::lines(detail), 0)),
            ..plainly(node, NodeStatus::Failed, None)
        }
    }
}

/// What a step's dispatch that ended settles as.
pub fn dispatch_ended(node: &String, succeeded: bool, detail: &str) -> (r: Settlement)
    ensures
        r@ == dispatch_settles(node@, succeeded, detail@),
{
    if succeeded {
        Settlement::plain(node, NodeStatus::Done, None)
    } else {
        let mut settlement = Settlement::plain(node, NodeStatus::Failed, None);
        settlement.detail = Some(first_line(detail));
        settlement
    }
}

/// What a step's dispatch that could not be run settles as, saying why.
pub fn dispatch_refused(node: &String, why: String) -> (r: Settlement)
    ensures
        r@ == (SettlementModel {
            detail: Some(why@),
            ..plainly(node@, NodeStatus::Failed, Some("dispatch-failed"@))
        }),
{
    let mut settlement = Settlement::plain(node, NodeStatus::Failed, Some("dispatch-failed"));
    settlement.detail = Some(why);
    settlement
}

/// How the drafting of a change request's body ended where no dispatch was needed
/// for it: with the plan's own body, with nothing asked, or with nowhere to ask.
pub fn settled_without_a_dispatch(plan: DraftPlan) -> (r: Option<Drafted>)
    requires
        !(plan is Dispatch),
    ensures
        match plan {
            DraftPlan::Written(body) => r == Some(Drafted::Body(body)),
            DraftPlan::Nowhere => r matches Some(Drafted::Undrafted(Undrafted::Dispatch(why)))
                && why@ == NO_WORKTREE@,
            _ => r is None,
        },
{
    match plan {
        DraftPlan::Written(body) => Some(Drafted::Body(body)),
        DraftPlan::Nowhere => Some(
            Drafted::Undrafted(Undrafted::Dispatch(NO_WORKTREE.to_owned())),
        ),
        _ => None,
    }
}

/// What a publication makes of how the drafting ended: the body the change request
/// opens with, and the ending to report where it opens with none although one was
/// asked for. Nothing asked is no failure, and nothing is reported of it.
pub fn body_and_ending(drafted: Option<Drafted>) -> (r: (Option<String>, Option<Undrafted>))
    ensures
        match drafted {
            None => r.0 is None && r.1 is None,
            Some(Drafted::Body(body)) => r.0 == Some(body) && r.1 is None,
            Some(Drafted::Undrafted(ending)) => r.0 is None && r.1 == Some(ending),
        },
{
    match drafted {
        None => (None, None),
        Some(Drafted::Body(body)) => (Some(body), None),
        Some(Drafted::Undrafted(ending)) => (None, Some(ending)),
    }
}

/// What the run records of a body that was not drafted: which ending it was, and in
/// what words.
pub fn undrafted_payload(ending: &Undrafted) -> (r: Vec<(String, Json)>)
    ensures
        values_of(r@) == seq![
            ("ending"@, JsonModel::Text(ending.word())),
            ("reason"@, JsonModel::Text(ending.reason())),
        ],
{
    let mut out: Vec<(String, Json)> = Vec::new();
    out.push(("ending".to_owned(), Json::Text(ending.ending().to_owned())));
    out.push(("reason".to_owned(), Json::Text(ending.why())));
    assert(values_of(out@) =~= seq![
        ("ending"@, JsonModel::Text(ending.word())),
        ("reason"@, JsonModel::Text(ending.reason())),
    ]);
    out
}

/// What the run records of a node that is dispatched again: which attempt it is, of
/// how many, and why.
pub fn redispatched_payload(attempt: u32, attempts: u32, reason: &str) -> (r: Vec<(String, Json)>)
    ensures
        values_of(r@) == seq![
            ("attempt"@, JsonModel::Count(attempt as u64)),
            ("attempts"@, JsonModel::Count(attempts as u64)),
            ("reason"@, JsonModel::Text(reason@)),
        ],
{
    let mut out: Vec<(String, Json)> = Vec::new();
    out.push(("attempt".to_owned(), Json::Count(attempt as u64)));
    out.push(("attempts".to_owned(), Json::Count(attempts as u64)));
    out.push(("reason".to_owned(), Json::Text(reason.to_owned())));
    assert(values_of(out@) =~= seq![
        ("attempt"@, JsonModel::Count(attempt as u64)),
        ("attempts"@, JsonModel::Count(attempts as u64)),
        ("reason"@, JsonModel::Text(reason@)),
    ]);
    out
}

/// What the version-control library answered a publication with.
pub enum Publication {
    /// It refused the call outright, saying this.
    Refused(String),
    /// The publication did not land.
    Failed {
        /// Why.
        kind: FailureKind,
        /// What it said.
        reason: String,
        /// Whether the branch still exists outside the session.
        handed_back: bool,
        /// The branch it published.
        branch: String,
        /// What it recorded.
        evidence: Vec<Evidence>,
    },
    /// The base already carries everything on the branch.
    Nothing {
        /// The branch it compared.
        branch: String,
    },
    /// The change was published.
    Published {
        /// The branch that carried it.
        branch: String,
        /// What the publication ended as, in one word.
        outcome: String,
        /// Where the change is.
        change_url: Option<String>,
        /// Whether it reached its base.
        landing: Option<Landing>,
    },
}

/// The branch a settlement names: the one a dispatch reported, else the one the
/// publication did.
pub open spec fn branch_or(branch: Option<Seq<char>>, published: Seq<char>) -> Option<Seq<char>> {
    if branch is Some {
        branch
    } else {
        Some(published)
    }
}

/// The settlement of a failure no further attempt could answer, or whose branch
/// nobody kept.
pub open spec fn failed_settlement(
    node: Seq<char>,
    branch: Option<Seq<char>>,
    kind: FailureKind,
    reason: Seq<char>,
    undrafted: Option<Seq<char>>,
) -> SettlementModel {
    SettlementModel {
        branch,
        detail: Some(composed("onevcs: "@ + reason, undrafted)),
        ..plainly(node, NodeStatus::Failed, Some(failure_word(kind)))
    }
}

fn copy_evidence(list: &Vec<Evidence>) -> (r: Vec<Evidence>)
    ensures
        exhibits(r@) == exhibits(list@),
{
    let mut out: Vec<Evidence> = Vec::new();
    let mut i: usize = 0;
    while i < list.len()
        invariant
            i <= list@.len(),
            exhibits(out@) == exhibits(list@).take(i as int),
        decreases list@.len() - i,
    {
        let ghost was = out@;
        let copy = Evidence { kind: list[i].kind.clone(), id: list[i].id.clone() };
        out.push(copy);
        assert(exhibits(out@) =~= exhibits(was).push((copy.kind@, copy.id@)));
        i += 1;
        assert(exhibits(out@) =~= exhibits(list@).take(i as int));
    }
    assert(exhibits(out@) =~= exhibits(list@));
    out
}

/// Settle or continue one failed publication.
///
/// Preserving is two conditions and not one: the failure has to be a kind a
/// further attempt could answer, and the branch has to still exist outside the
/// session. Sending a node back to work on a branch nobody kept would republish
/// an empty tree and report a recovery that recovered nothing.
pub fn failed_publication(
    node: &String,
    branch: Option<String>,
    kind: FailureKind,
    reason: &str,
    handed_back: bool,
    evidence: &Vec<Evidence>,
    undrafted: Option<String>,
) -> (r: Attempt)
    ensures
        match r {
            Attempt::Preserving(preserved) => {
                &&& preserving(kind) is Some
                &&& handed_back
                &&& branch is Some
                &&& preserved@ == (PreservedModel {
                    branch: text_of(branch)->0,
                    outcome: preserving(kind)->0,
                    reason: bound(one_lined(reason@)),
                    evidence: exhibits(evidence@),
                    undrafted: text_of(undrafted),
                })
            },
            Attempt::Settled(settlement) => {
                &&& preserving(kind) is None || !handed_back || branch is None
                &&& settlement@ == failed_settlement(
                    node@,
                    text_of(branch),
                    kind,
                    reason@,
                    text_of(undrafted),
                )
            },
        },
{
    let failure = failure_of(kind);
    if let Some(outcome) = failure {
        if handed_back {
            if let Some(branch) = branch {
                let line = text::one_line(reason);
                return Attempt::Preserving(
                    Preserved {
                        branch,
                        outcome,
                        reason: text::bounded(line.as_str()),
                        evidence: copy_evidence(evidence),
                        undrafted,
                    },
                );
            }
            let mut said: String = String::from_str("onevcs: ");
            said.append(reason);
            let mut settlement = Settlement::plain(
                node,
                NodeStatus::Failed,
                Some(outcome.outcome()),
            );
            settlement.detail = Some(compose(said.as_str(), &undrafted));
            return Attempt::Settled(settlement);
        }
    }
    let word: &str = match failure {
        Some(outcome) => outcome.outcome(),
        None => "publication-failed",
    };
    let mut said: String = String::from_str("onevcs: ");
    said.append(reason);
    let mut settlement = Settlement::plain(node, NodeStatus::Failed, Some(word));
    settlement.detail = Some(compose(said.as_str(), &undrafted));
    settlement.branch = branch;
    Attempt::Settled(settlement)
}

/// What a publication that found nothing to publish compared against, on one
/// line.
pub open spec fn compared(base: Seq<char>, branch: Seq<char>) -> Seq<char> {
    one_lined("compared against "@ + base + ": "@ + branch + " carries nothing it does not"@)
}

/// What the answer to a publication settles a node as.
pub open spec fn published_as(
    node: Seq<char>,
    branch: Option<Seq<char>>,
    base: Option<Seq<char>>,
    undrafted: Option<Seq<char>>,
    answer: Publication,
) -> SettlementModel {
    match answer {
        Publication::Refused(why) => SettlementModel {
            branch,
            detail: Some(composed(why@, undrafted)),
            ..plainly(node, NodeStatus::Failed, Some("publication-failed"@))
        },
        Publication::Failed { kind, reason, handed_back, branch: published, evidence } =>
            failed_settlement(node, branch_or(branch, published@), kind, reason@, undrafted),
        Publication::Nothing { branch: published } => SettlementModel {
            detail: match base {
                Some(base) => Some(composed(compared(base, published@), undrafted)),
                None => undrafted,
            },
            branch: branch_or(branch, published@),
            ..plainly(node, NodeStatus::Done, Some("no-changes"@))
        },
        Publication::Published { branch: published, outcome, change_url, landing } =>
            SettlementModel {
                detail: undrafted,
                branch: branch_or(branch, published@),
                change_url: text_of(change_url),
                landing,
                ..plainly(node, NodeStatus::Done, Some(outcome@))
            },
    }
}

/// What the answer to a publication makes of the attempt that asked for it: an
/// attempt that leaves its work behind exactly where the failure is one a further
/// attempt could answer and the branch was handed back.
pub fn publish(
    node: &Node,
    branch: Option<String>,
    base: &Option<String>,
    undrafted: Option<String>,
    answer: Publication,
) -> (r: Attempt)
    ensures
        match r {
            Attempt::Settled(settlement) => {
                &&& settlement@ == published_as(
                    node.id@,
                    text_of(branch),
                    text_of(*base),
                    text_of(undrafted),
                    answer,
                )
                &&& answer matches Publication::Failed { kind, handed_back, .. }
                    ==> preserving(kind) is None || !handed_back
            },
            Attempt::Preserving(preserved) => {
                &&& answer matches Publication::Failed {
                    kind,
                    reason,
                    handed_back,
                    branch: published,
                    evidence,
                }
                &&& preserving(kind) is Some
                &&& handed_back
                &&& preserved@ == (PreservedModel {
                    branch: branch_or(text_of(branch), published@)->0,
                    outcome: preserving(kind)->0,
                    reason: bound(one_lined(reason@)),
                    evidence: exhibits(evidence@),
                    undrafted: text_of(undrafted),
                })
            },
        },
{
    match answer {
        Publication::Refused(why) => {
            let mut settlement = Settlement::plain(
                &node.id,
                NodeStatus::Failed,
                Some("publication-failed"),
            );
            settlement.detail = Some(compose(why.as_str(), &undrafted));
            settlement.branch = branch;
            Attempt::Settled(settlement)
        },
        Publication::Failed { kind, reason, handed_back, branch: published, evidence } => {
            let at: Option<String> = match branch {
                Some(branch) => Some(branch),
                None => Some(published),
            };
            failed_publication(
                &node.id,
                at,
                kind,
                reason.as_str(),
                handed_back,
                &evidence,
                undrafted,
            )
        },
        Publication::Nothing { branch: published } => {
            let mut settlement = Settlement::plain(&node.id, NodeStatus::Done, Some("no-changes"));
            settlement.detail = match base {
                Some(base) => {
                    let mut said: String = String::from_str("compared against ");
                    said.append(base.as_str());
                    said.append(": ");
                    said.append(published.as_str());
                    said.append(" carries nothing it does not");
                    let line = text::one_line(said.as_str());
                    Some(compose(line.as_str(), &undrafted))
                },
                None => undrafted,
            };
            settlement.branch = match branch {
                Some(branch) => Some(branch),
                None => Some(published),
            };
            Attempt::Settled(settlement)
        },
        Publication::Published { branch: published, outcome, change_url, landing } => {
            let mut settlement = Settlement::plain(
                &node.id,
                NodeStatus::Done,
                Some(outcome.as_str()),
            );
            settlement.detail = undrafted;
            settlement.branch = match branch {
                Some(branch) => Some(branch),
                None => Some(published),
            };
            settlement.change_url = change_url;
            settlement.landing = landing;
            Attempt::Settled(settlement)
        },
    }
}

/// Each ending of a list, numbered from one.
pub open spec fn numbered(endings: Seq<Preserving>) -> Seq<Seq<char>> {
    Seq::new(endings.len(), |i: int| dec((i + 1) as nat) + " "@ + endings[i].word())
}

/// Each ending of a list, in its own word.
pub open spec fn ending_words(endings: Seq<Preserving>) -> Seq<Seq<char>> {
    endings.map_values(|e: Preserving| e.word())
}

/// Every attempt that was made, and what each one ended with.
pub open spec fn roll_up(branch: Seq<char>, endings: Seq<Preserving>) -> Seq<char> {
    dec(endings.len()) + " publication attempt"@ + (if endings.len() == 1 {
        ""@
    } else {
        "s"@
    }) + " on "@ + branch + ": "@ + join(numbered(endings), ", "@)
}

/// The settlement of a node that will not be dispatched again: the last failure's
/// word, over a roll-up of every attempt, with no step recorded as completed.
pub open spec fn stopped(
    node: Seq<char>,
    preserved: PreservedModel,
    endings: Seq<Preserving>,
) -> SettlementModel {
    SettlementModel {
        branch: Some(preserved.branch),
        detail: Some(
            composed(
                "onevcs: "@ + preserved.reason + ". "@ + roll_up(preserved.branch, endings),
                preserved.undrafted,
            ),
        ),
        ..plainly(node, NodeStatus::Failed, Some(preserved.outcome.word()))
    }
}

/// The settlement of a node that will not be dispatched again — because its
/// publication budget is spent, or because the run is being cancelled before it
/// could be.
pub fn stopped_retrying(
    node: &String,
    preserved: &Preserved,
    endings: &Vec<Preserving>,
) -> (r: Settlement)
    ensures
        r@ == stopped(node@, preserved@, endings@),
{
    let mut each: Vec<String> = Vec::new();
    let mut i: usize = 0;
    while i < endings.len()
        invariant
            i <= endings@.len(),
            texts(each@) == numbered(endings@).take(i as int),
        decreases endings@.len() - i,
    {
        let mut one: String = String::new();
        text::push_dec(&mut one, i as u64 + 1);
        one.append(" ");
        one.append(endings[i].outcome());
        let ghost was = texts(each@);
        assert(one@ =~= numbered(endings@)[i as int]);
        each.push(one);
        assert(texts(each@) =~= was.push(one@));
        i += 1;
        assert(texts(each@) =~= numbered(endings@).take(i as int));
    }
    assert(texts(each@) =~= numbered(endings@));
    let list = text::joined(&each, ", ");
    let mut rolled = text::dec_text(endings.len() as u64);
    rolled.append(" publication attempt");
    rolled.append(
        if endings.len() == 1 {
            ""
        } else {
            "s"
        },
    );
    rolled.append(" on ");
    rolled.append(preserved.branch.as_str());
    rolled.append(": ");
    rolled.append(list.as_str());
    let mut detail: String = String::from_str("onevcs: ");
    detail.append(preserved.reason.as_str());
    detail.append(". ");
    detail.append(rolled.as_str());
    let mut settlement = Settlement::plain(
        node,
        NodeStatus::Failed,
        Some(preserved.outcome.outcome()),
    );
    settlement.branch = Some(preserved.branch.clone());
    settlement.detail = Some(compose(detail.as_str(), &preserved.undrafted));
    settlement
}

/// The artifacts of a failed publication, one to a line.
pub open spec fn exhibit_lines(evidence: Seq<(Seq<char>, Seq<char>)>) -> Seq<char>
    decreases evidence.len(),
{
    if evidence.len() == 0 {
        Seq::empty()
    } else {
        exhibit_lines(evidence.drop_last()) + "- "@ + evidence.last().0 + " — "@
            + evidence.last().1 + "\n"@
    }
}

/// What the next attempt is told about the one before it.
pub open spec fn diagnosed(
    preserved: PreservedModel,
    attempt: nat,
    attempts: nat,
    endings: Seq<Preserving>,
) -> Seq<char> {
    let opening =
        "The previous attempt's publication failed and its branch was preserved. This is attempt "@
        + dec(attempt) + " of "@ + dec(attempts) + ", and it continues that same branch — "@
        + preserved.branch
        + " — so the tree that was rejected is the tree this dispatch starts from. Change what the failure below is about; republishing it unaltered meets the same refusal.\n\nThe publication ended `"@
        + preserved.outcome.word() + "`, and `onevcs` said:\n\n"@ + preserved.reason + "\n"@;
    let so_far = if endings.len() > 1 {
        opening + "\nEvery attempt so far ended: "@ + join(ending_words(endings), ", "@) + ".\n"@
    } else {
        opening
    };
    if preserved.evidence.len() > 0 {
        so_far
            + "\nThe publication recorded this evidence, each fetched with `onevcs artifact cat ID`:\n"@
            + exhibit_lines(preserved.evidence)
    } else {
        so_far
    }
}

/// What the next attempt is told about the one before it: the failure's own
/// reason, and a pointer to every artifact its publication recorded.
pub fn diagnosis(
    preserved: &Preserved,
    attempt: u32,
    attempts: u32,
    endings: &Vec<Preserving>,
) -> (r: String)
    ensures
        r@ == diagnosed(preserved@, attempt as nat, attempts as nat, endings@),
{
    let mut note: String = String::from_str(
        "The previous attempt's publication failed and its branch was preserved. This is attempt ",
    );
    text::push_dec(&mut note, attempt as u64);
    note.append(" of ");
    text::push_dec(&mut note, attempts as u64);
    note.append(", and it continues that same branch — ");
    note.append(preserved.branch.as_str());
    note.append(
        " — so the tree that was rejected is the tree this dispatch starts from. Change what the failure below is about; republishing it unaltered meets the same refusal.\n\nThe publication ended `",
    );
    note.append(preserved.outcome.outcome());
    note.append("`, and `onevcs` said:\n\n");
    note.append(preserved.reason.as_str());
    note.append("\n");
    if endings.len() > 1 {
        let mut words: Vec<String> = Vec::new();
        let mut i: usize = 0;
        while i < endings.len()
            invariant
                i <= endings@.len(),
                texts(words@) == ending_words(endings@).take(i as int),
            decreases endings@.len() - i,
        {
            let ghost was = texts(words@);
            let word = endings[i].outcome().to_owned();
            words.push(word);
            assert(texts(words@) =~= was.push(word@));
            i += 1;
            assert(texts(words@) =~= ending_words(endings@).take(i as int));
        }
        assert(texts(words@) =~= ending_words(endings@));
        let list = text::joined(&words, ", ");
        note.append("\nEvery attempt so far ended: ");
        note.append(list.as_str());
        note.append(".\n");
    }
    if preserved.evidence.len() > 0 {
        note.append(
            "\nThe publication recorded this evidence, each fetched with `onevcs artifact cat ID`:\n",
        );
        let ghost before = note@;
        let ghost all = exhibits(preserved.evidence@);
        let mut i: usize = 0;
        assert(note@ =~= before + exhibit_lines(all.take(0)));
        while i < preserved.evidence.len()
            invariant
                i <= preserved.evidence@.len(),
                all == exhibits(preserved.evidence@),
                note@ == before + exhibit_lines(all.take(i as int)),
            decreases preserved.evidence@.len() - i,
        {
            let evidence = &preserved.evidence[i];
            proof {
                assert(all.take(i + 1).drop_last() =~= all.take(i as int));
                assert(all.take(i + 1).last() == (evidence.kind@, evidence.id@));
            }
            note.append("- ");
            note.append(evidence.kind.as_str());
            note.append(" — ");
            note.append(evidence.id.as_str());
            note.append("\n");
            i += 1;
            assert(note@ =~= before + exhibit_lines(all.take(i as int)));
        }
        assert(all.take(all.len() as int) =~= all);
    }
    note
}

/// The node the next attempt is dispatched as: pinned to the preserved branch,
/// with no step recorded as completed, carrying the diagnosis as its context.
pub open spec fn next_node(n: NodeModel, branch: Seq<char>, context: Seq<char>) -> NodeModel {
    NodeModel { branch: Some(branch), completed_steps: None, context: Some(context), ..n }
}

/// The node the next attempt is dispatched as.
///
/// Three changes and no others: it continues the preserved branch from its own
/// tip, every step runs again against the tree that was rejected, and it carries
/// the diagnosis so the worker meets the failure rather than having to find it.
pub fn continued(
    node: &Node,
    preserved: &Preserved,
    attempt: u32,
    attempts: u32,
    endings: &Vec<Preserving>,
) -> (r: Node)
    ensures
        r@ == next_node(
            node@,
            preserved.branch@,
            diagnosed(preserved@, attempt as nat, attempts as nat, endings@),
        ),
{
    let mut next = node.clone();
    next.branch = Some(preserved.branch.clone());
    next.resume = None;
    next.context = Some(diagnosis(preserved, attempt, attempts, endings));
    next
}

/// How far a node's publication budget is spent.
///
/// Bounded, because a check that will never pass would otherwise be answered by
/// an unbounded series of dispatches, each paying for the same refusal.
pub struct Retries {
    /// Which attempt is running, counting from one.
    pub attempt: u32,
    /// How many there may be.
    pub attempts: u32,
    /// What each attempt that is over ended with, in order.
    pub endings: Vec<Preserving>,
}

/// What follows an attempt that left its work behind.
pub enum Retry {
    /// The node settles.
    Stop(Settlement),
    /// The node is dispatched again.
    Again {
        /// As this node.
        node: Node,
        /// Because of this.
        reason: String,
    },
}

impl Retries {
    /// One ending for every attempt that is over, and never more attempts than the
    /// budget.
    pub open spec fn wf(&self) -> bool {
        &&& 1 <= self.attempt <= self.attempts
        &&& self.endings@.len() == self.attempt - 1
    }

    /// A budget nothing of which is spent.
    pub fn new(attempts: u32) -> (r: Self)
        requires
            attempts >= 1,
        ensures
            r.wf(),
            r.attempt == 1,
            r.attempts == attempts,
            r.endings@ == Seq::<Preserving>::empty(),
    {
        Retries { attempt: 1, attempts, endings: Vec::new() }
    }

    /// Take up an attempt that left its work behind: the node settles where the
    /// budget is spent or the run is being cancelled, and is otherwise dispatched
    /// again on the branch that attempt preserved.
    pub fn ended(&mut self, node: &Node, preserved: &Preserved, cancelled: bool) -> (r: Retry)
        requires
            old(self).wf(),
        ensures
            final(self).attempts == old(self).attempts,
            final(self).endings@ == old(self).endings@.push(preserved.outcome),
            match r {
                Retry::Stop(settlement) => {
                    &&& old(self).attempt == old(self).attempts || cancelled
                    &&& final(self).attempt == old(self).attempt
                    &&& settlement@ == stopped(node.id@, preserved@, final(self).endings@)
                },
                Retry::Again { node: next, reason } => {
                    &&& old(self).attempt < old(self).attempts && !cancelled
                    &&& final(self).wf()
                    &&& final(self).attempt == old(self).attempt + 1
                    &&& reason@ == preserved.outcome.word() + ": "@ + preserved.reason@
                    &&& next@ == next_node(
                        node@,
                        preserved.branch@,
                        diagnosed(
                            preserved@,
                            final(self).attempt as nat,
                            final(self).attempts as nat,
                            final(self).endings@,
                        ),
                    )
                },
            },
    {
        self.endings.push(preserved.outcome);
        if self.attempt >= self.attempts || cancelled {
            return Retry::Stop(stopped_retrying(&node.id, preserved, &self.endings));
        }
        self.attempt = self.attempt + 1;
        let mut reason: String = String::from_str(preserved.outcome.outcome());
        reason.append(": ");
        reason.append(preserved.reason.as_str());
        Retry::Again {
            node: continued(node, preserved, self.attempt, self.attempts, &self.endings),
            reason,
        }
    }
}

/// Where a dispatch of a workstream runs.
#[derive(Debug, PartialEq, Eq)]
pub enum Workspace {
    /// In the worktree the node's session opened.
    Worktree(String),
    /// In a session of its own, on this branch where it names one.
    Session(Option<String>),
}

/// What a workstream does next.
pub enum Next {
    /// A person acts; the node waits, holding its branch.
    Wait(Settlement),
    /// Nothing was dispatched, so there is nothing to publish.
    NoChanges(Settlement),
    /// The branch is published from this session.
    Publish(String),
    /// A step is dispatched.
    Dispatch {
        /// Which one, in dispatch order.
        step: usize,
        /// Where.
        workspace: Workspace,
        /// Under which agent graph.
        graph: String,
        /// The step its events are labelled with, where the node declares steps.
        label: Option<String>,
    },
}

/// One attempt at a lifecycle node, while its steps are dispatched one after the
/// other on one branch.
pub struct Workstream {
    /// The steps, in dispatch order, each with the controls it runs under.
    pub steps: Vec<(Step, NodeControls)>,
    /// Whether the node declares steps at all.
    pub declares: bool,
    /// The step that is next.
    pub at: usize,
    /// The session the steps work in, once one is open.
    pub session: Option<String>,
    /// Whether that session's stream is being followed.
    pub following: bool,
    /// The worktree that session opened.
    pub worktree: Option<String>,
    /// What a publication of that session is measured against.
    pub base: Option<String>,
    /// The branch the work is on.
    pub branch: Option<String>,
    /// The steps the branch carries.
    pub completed: Vec<String>,
}

/// A step that is passed over: it is on the branch already, or it is no person's
/// action and declares no diff.
pub open spec fn passed_over(step: StepModel, declares: bool, completed: Seq<Seq<char>>) -> bool {
    ||| declares && completed.contains(step.id)
    ||| step.kind != NodeKind::Human && step.expects_no_diff
}

/// The first step from a position on that is not passed over.
pub open spec fn next_step(
    steps: Seq<StepModel>,
    declares: bool,
    completed: Seq<Seq<char>>,
    from: int,
) -> int
    decreases steps.len() - from,
{
    if from < 0 || from >= steps.len() {
        steps.len() as int
    } else if passed_over(steps[from], declares, completed) {
        next_step(steps, declares, completed, from + 1)
    } else {
        from
    }
}

/// The agent graph a step is dispatched under: its own, else its node's, else the
/// launch's.
pub open spec fn graph_for(step: StepModel, node: NodeModel, launch: Seq<char>) -> Seq<char> {
    match step.agent_graph {
        Some(graph) => graph,
        None => match node.agent_graph {
            Some(graph) => graph,
            None => launch,
        },
    }
}

/// What a node that cannot be attempted at all is told.
pub open spec fn unattemptable(n: NodeModel) -> Option<Seq<char>> {
    if n.repo is None {
        Some("a lifecycle node needs a repo"@)
    } else {
        workstream_stop(n)
    }
}

impl Workstream {
    /// The steps, as contracts speak of them.
    pub open spec fn order(&self) -> Seq<StepModel> {
        steps_of(self.steps@)
    }

    /// The step this workstream turns to next.
    pub open spec fn turn(&self) -> int {
        next_step(self.order(), self.declares, texts(self.completed@), self.at as int)
    }

    /// Begin an attempt, or say why the node cannot be attempted. Every step's
    /// controls are narrowed here, before a session exists: a workstream that
    /// cannot dispatch one of its steps must not first cut a branch.
    pub fn begin(node: &Node) -> (r: Result<Workstream, Settlement>)
        ensures
            match r {
                Ok(work) => {
                    &&& unattemptable(node@) is None
                    &&& work.order() == dispatch_order(node@)
                    &&& work.declares == (node@.steps is Some)
                    &&& work.at == 0
                    &&& work.session is None
                    &&& !work.following
                    &&& work.worktree is None
                    &&& work.base is None
                    &&& text_of(work.branch) == node@.branch
                    &&& texts(work.completed@) == (match node@.completed_steps {
                        Some(steps) => steps,
                        None => Seq::empty(),
                    })
                },
                Err(settlement) => {
                    &&& unattemptable(node@) is Some
                    &&& settlement@ == (SettlementModel {
                        detail: unattemptable(node@),
                        ..plainly(node.id@, NodeStatus::Failed, Some("invalid-node"@))
                    })
                },
            },
    {
        if node.repo.is_none() {
            let mut settlement = Settlement::plain(
                &node.id,
                NodeStatus::Failed,
                Some("invalid-node"),
            );
            settlement.detail = Some("a lifecycle node needs a repo".to_owned());
            return Err(settlement);
        }
        let steps = match dispatchable_steps(node) {
            Ok(steps) => steps,
            Err(reason) => {
                let mut settlement = Settlement::plain(
                    &node.id,
                    NodeStatus::Failed,
                    Some("invalid-node"),
                );
                settlement.detail = Some(reason);
                return Err(settlement);
            },
        };
        let completed: Vec<String> = match &node.resume {
            Some(resume) => copy_strings(&resume.completed_steps),
            None => Vec::new(),
        };
        assert(node@.completed_steps is None ==> texts(completed@) =~= Seq::<Seq<char>>::empty());
        Ok(
            Workstream {
                steps,
                declares: node.steps.is_some(),
                at: 0,
                session: None,
                following: false,
                worktree: None,
                base: None,
                branch: copy_text(&node.branch),
                completed,
            },
        )
    }

    /// What the workstream does next. A step on the branch already is passed over
    /// and so is one that declares no diff; a person's action stops it; and when
    /// no step is left, what was dispatched is published.
    pub fn next(&mut self, node: &Node, launch: &Launch) -> (r: Next)
        requires
            old(self).at <= old(self).steps@.len(),
        ensures
            final(self).at == old(self).turn(),
            final(self).at <= final(self).steps@.len(),
            *final(self) == (Workstream { at: final(self).at, ..*old(self) }),
            match r {
                Next::Wait(settlement) => {
                    &&& old(self).turn() < old(self).order().len()
                    &&& old(self).order()[old(self).turn()].kind == NodeKind::Human
                    &&& settlement@ == (SettlementModel {
                        branch: text_of(old(self).branch),
                        completed_steps: texts(old(self).completed@),
                        ..plainly(node.id@, NodeStatus::Waiting, None)
                    })
                },
                Next::Dispatch { step, workspace, graph, label } => {
                    &&& step == old(self).turn()
                    &&& step < old(self).order().len()
                    &&& old(self).order()[step as int].kind != NodeKind::Human
                    &&& workspace == (match old(self).worktree {
                        Some(dir) => Workspace::Worktree(dir),
                        None => Workspace::Session(old(self).branch),
                    })
                    &&& graph@ == graph_for(
                        old(self).order()[step as int],
                        node@,
                        launch.node_graph@,
                    )
                    &&& text_of(label) == (if old(self).declares {
                        Some(old(self).order()[step as int].id)
                    } else {
                        None
                    })
                },
                Next::NoChanges(settlement) => {
                    &&& old(self).turn() == old(self).order().len()
                    &&& old(self).session is None
                    &&& settlement@ == (SettlementModel {
                        branch: text_of(old(self).branch),
                        ..plainly(node.id@, NodeStatus::Done, Some("no-changes"@))
                    })
                },
                Next::Publish(token) => {
                    &&& old(self).turn() == old(self).order().len()
                    &&& old(self).session == Some(token)
                },
            },
    {
        let ghost start = *self;
        while self.at < self.steps.len()
            invariant
                start == *old(self),
                start.at <= self.at <= self.steps@.len(),
                *self == (Workstream { at: self.at, ..start }),
                next_step(
                    start.order(),
                    start.declares,
                    texts(start.completed@),
                    start.at as int,
                ) == next_step(
                    start.order(),
                    start.declares,
                    texts(start.completed@),
                    self.at as int,
                ),
            ensures
                *self == (Workstream { at: self.at, ..start }),
                self.at == start.turn(),
                self.at == self.steps@.len(),
            decreases self.steps@.len() - self.at,
        {
            let step = &self.steps[self.at].0;
            assert(start.order()[self.at as int] == step@);
            let done: bool = self.declares && lists(&self.completed, step.id.as_str());
            if !done {
                if step.kind == NodeKind::Human {
                    let mut settlement = Settlement::plain(&node.id, NodeStatus::Waiting, None);
                    settlement.branch = copy_text(&self.branch);
                    settlement.completed_steps = copy_strings(&self.completed);
                    return Next::Wait(settlement);
                }
                if !step.expects_no_diff {
                    let workspace = match &self.worktree {
                        Some(dir) => Workspace::Worktree(dir.clone()),
                        None => Workspace::Session(copy_text(&self.branch)),
                    };
                    let graph = match &step.agent_graph {
                        Some(graph) => graph.clone(),
                        None => match &node.agent_graph {
                            Some(graph) => graph.clone(),
                            None => launch.node_graph.clone(),
                        },
                    };
                    let label = if self.declares {
                        Some(step.id.clone())
                    } else {
                        None
                    };
                    return Next::Dispatch { step: self.at, workspace, graph, label };
                }
            }
            self.at = self.at + 1;
        }
        match &self.session {
            Some(token) => Next::Publish(token.clone()),
            None => {
                let mut settlement = Settlement::plain(
                    &node.id,
                    NodeStatus::Done,
                    Some("no-changes"),
                );
                settlement.branch = copy_text(&self.branch);
                Next::NoChanges(settlement)
            },
        }
    }

    /// Take up what a dispatch reported: the session it opened is what publication
    /// needs, whether or not the step succeeded. Answers the session whose record
    /// is to be read and whose stream is to be followed, where one is.
    pub fn reported(&mut self, session: Option<String>, branch: Option<String>) -> (r: Option<
        String,
    >)
        ensures
            *final(self) == (Workstream {
                session: if session is Some { session } else { old(self).session },
                branch: if branch is Some { branch } else { old(self).branch },
                ..*old(self)
            }),
            r == (if old(self).following {
                None
            } else {
                final(self).session
            }),
    {
        if session.is_some() {
            self.session = session;
        }
        if branch.is_some() {
            self.branch = branch;
        }
        if self.following {
            None
        } else {
            copy_text(&self.session)
        }
    }

    /// Take up the session's own record, and whether its stream is followed from
    /// now on: every later dispatch runs in the worktree it names.
    pub fn opened(&mut self, record: Option<(String, String)>, following: bool)
        ensures
            *final(self) == (Workstream {
                worktree: match record {
                    Some((worktree, _)) => Some(worktree),
                    None => None,
                },
                base: match record {
                    Some((_, base)) => Some(base),
                    None => None,
                },
                following,
                ..*old(self)
            }),
    {
        match record {
            Some((worktree, base)) => {
                self.worktree = Some(worktree);
                self.base = Some(base);
            },
            None => {
                self.worktree = None;
                self.base = None;
            },
        }
        self.following = following;
    }

    /// Take up how a dispatched step settled: a step that is done is on the branch
    /// and the workstream goes on past it; anything else settles the node, with
    /// the branch and the steps it carries.
    pub fn settled(&mut self, settlement: Settlement) -> (r: Option<Settlement>)
        requires
            old(self).at < old(self).steps@.len(),
        ensures
            match r {
                Some(end) => {
                    &&& settlement.status != NodeStatus::Done
                    &&& *final(self) == *old(self)
                    &&& end@ == (SettlementModel {
                        branch: text_of(old(self).branch),
                        completed_steps: texts(old(self).completed@),
                        ..settlement@
                    })
                },
                None => {
                    &&& settlement.status == NodeStatus::Done
                    &&& final(self).at == old(self).at + 1
                    &&& texts(final(self).completed@) == (if old(self).declares {
                        texts(old(self).completed@).push(old(self).order()[old(self).at as int].id)
                    } else {
                        texts(old(self).completed@)
                    })
                    &&& *final(self) == (Workstream {
                        at: final(self).at,
                        completed: final(self).completed,
                        ..*old(self)
                    })
                },
            },
    {
        let count: usize = self.steps.len();
        if settlement.status != NodeStatus::Done {
            let mut end = settlement;
            end.branch = copy_text(&self.branch);
            end.completed_steps = copy_strings(&self.completed);
            return Some(end);
        }
        if self.declares {
            let id = self.steps[self.at].0.id.clone();
            assert(old(self).order()[old(self).at as int] == old(self).steps@[old(self).at as int].0@);
            self.completed.push(id);
            assert(texts(self.completed@) =~= texts(old(self).completed@).push(id@));
        }
        assert(self.at < count);
        self.at = self.at + 1;
        None
    }
}

fn lists(list: &Vec<String>, id: &str) -> (r: bool)
    ensures
        r == texts(list@).contains(id@),
{
    let mut i: usize = 0;
    while i < list.len()
        invariant
            i <= list@.len(),
            forall|j: int| 0 <= j < i ==> #[trigger] texts(list@)[j] != id@,
        decreases list@.len() - i,
    {
        if text::same(list[i].as_str(), id) {
            assert(texts(list@)[i as int] == id@);
            return true;
        }
        i += 1;
    }
    false
}

/// How far each stream of a session has been relayed: the highest number, per
/// stream.
pub struct Watermarks {
    marks: NameMap<u64>,
}

impl Watermarks {
    /// The highest number relayed of each stream.
    pub closed spec fn marks(&self) -> Map<Seq<char>, u64> {
        self.marks@
    }

    /// The marks are a map.
    pub closed spec fn wf(&self) -> bool {
        self.marks.wf()
    }

    /// Nothing relayed of any stream.
    pub fn new() -> (r: Self)
        ensures
            r.wf(),
            r.marks() == Map::<Seq<char>, u64>::empty(),
    {
        Watermarks { marks: NameMap::new() }
    }

    /// An envelope has been relayed.
    pub fn reached(&mut self, envelope: &Envelope)
        requires
            old(self).wf(),
        ensures
            final(self).wf(),
            final(self).marks() == old(self).marks().insert(
                envelope.stream@,
                if old(self).marks().contains_key(envelope.stream@)
                    && old(self).marks()[envelope.stream@] > envelope.seq {
                    old(self).marks()[envelope.stream@]
                } else {
                    envelope.seq
                },
            ),
    {
        let mark: u64 = match self.marks.get(envelope.stream.as_str()) {
            Some(mark) => if *mark > envelope.seq {
                *mark
            } else {
                envelope.seq
            },
            None => envelope.seq,
        };
        self.marks.insert(envelope.stream.clone(), mark);
    }

    /// Whether an envelope is past the mark its own stream stands at.
    pub fn beyond(&self, envelope: &Envelope) -> (r: bool)
        requires
            self.wf(),
        ensures
            r == past(self.marks(), *envelope),
    {
        match self.marks.get(envelope.stream.as_str()) {
            Some(mark) => envelope.seq > *mark,
            None => true,
        }
    }
}

/// An envelope past the mark its own stream stands at; a stream with no mark is
/// one still to read.
pub open spec fn past(marks: Map<Seq<char>, u64>, envelope: Envelope) -> bool {
    marks.contains_key(envelope.stream@) ==> envelope.seq > marks[envelope.stream@]
}

/// The part of what a read handed back that a follow did not already relay.
///
/// Each stream is numbered monotonically and resumes its series across the
/// processes that write to it, so its mark is the whole of the bookkeeping: a
/// record relayed twice is the same defect as one lost, seen from the other side.
pub fn beyond(envelopes: Vec<Envelope>, followed_through: &Watermarks) -> (r: Vec<Envelope>)
    requires
        followed_through.wf(),
    ensures
        r@ == envelopes@.filter(|e: Envelope| past(followed_through.marks(), e)),
{
    let ghost all = envelopes@;
    let ghost keep = |e: Envelope| past(followed_through.marks(), e);
    let mut out: Vec<Envelope> = Vec::new();
    proof {
        reveal_with_fuel(Seq::filter, 1);
        assert(all.take(0).filter(keep) =~= Seq::<Envelope>::empty());
    }
    for envelope in it: envelopes.into_iter()
        invariant
            followed_through.wf(),
            all == it.seq(),
            keep == (|e: Envelope| past(followed_through.marks(), e)),
            out@ == all.take(it.index()).filter(keep),
    {
        let kept: bool = followed_through.beyond(&envelope);
        proof {
            let more = all.take(it.index() + 1);
            assert(more.drop_last() =~= all.take(it.index()));
            assert(more.last() == envelope);
            reveal(Seq::filter);
        }
        if kept {
            out.push(envelope);
        }
    }
    assert(all.take(all.len() as int) =~= all);
    out
}

/// A record is relayed once: what is past the marks is no longer past them once
/// it has been relayed.
pub proof fn law_relayed_once(marks: Map<Seq<char>, u64>, envelope: Envelope, mark: u64)
    requires
        mark >= envelope.seq,
    ensures
        !past(marks.insert(envelope.stream@, mark), envelope),
{
}

/// Each stream is counted on its own: relaying a record of one stream hides
/// nothing of another.
pub proof fn law_streams_are_counted_apart(
    marks: Map<Seq<char>, u64>,
    relayed: Envelope,
    other: Envelope,
    mark: u64,
)
    requires
        relayed.stream@ != other.stream@,
    ensures
        past(marks.insert(relayed.stream@, mark), other) == past(marks, other),
{
}

/// The three endings a drafting dispatch can have are named apart.
pub proof fn law_endings_are_named_apart(a: Undrafted, b: Undrafted)
    requires
        a.word() == b.word(),
    ensures
        a is Dispatch <==> b is Dispatch,
        a is SchemaRefused <==> b is SchemaRefused,
        a is Bodyless <==> b is Bodyless,
{
    reveal_strlit("dispatch-failed");
    reveal_strlit("schema-refused");
    reveal_strlit("no-body");
    assert("dispatch-failed"@[0] == 'd');
    assert("schema-refused"@[0] == 's');
    assert("no-body"@[0] == 'n');
    assert(a.word()[0] == b.word()[0]);
}

/// A continuation runs every step again, on the branch it continues: nothing the
/// rejected tree carries is passed over, so it is never published again unaltered.
pub proof fn law_a_continuation_runs_every_step_again(
    node: NodeModel,
    branch: Seq<char>,
    context: Seq<char>,
    i: int,
)
    requires
        0 <= i < dispatch_order(node).len(),
    ensures
        next_node(node, branch, context).branch == Some(branch),
        dispatch_order(next_node(node, branch, context)) == dispatch_order(node),
        next_node(node, branch, context).completed_steps is None,
        passed_over(dispatch_order(node)[i], node.steps is Some, Seq::empty()) ==> {
            &&& dispatch_order(node)[i].kind != NodeKind::Human
            &&& dispatch_order(node)[i].expects_no_diff
        },
{
}

/// A step the branch carries is not dispatched again, and every step before the one
/// that is dispatched next is one to pass over.
pub proof fn law_a_step_on_the_branch_is_not_run_again(
    steps: Seq<StepModel>,
    completed: Seq<Seq<char>>,
    from: int,
)
    requires
        0 <= from <= steps.len(),
    ensures
        from <= next_step(steps, true, completed, from) <= steps.len(),
        next_step(steps, true, completed, from) < steps.len() ==> !completed.contains(
            steps[next_step(steps, true, completed, from)].id,
        ),
        forall|k: int|
            from <= k < next_step(steps, true, completed, from) ==> passed_over(
                #[trigger] steps[k],
                true,
                completed,
            ),
    decreases steps.len() - from,
{
    if from < steps.len() && passed_over(steps[from], true, completed) {
        law_a_step_on_the_branch_is_not_run_again(steps, completed, from + 1);
    }
}

/// Which failures leave the work behind: checks that failed or did not settle, a push that
/// was refused or never verified, and a base that moved — each settling on its own word.
/// Every other failure is the node's answer, on a word of its own.
pub proof fn law_which_failures_leave_the_work_behind(kind: FailureKind)
    ensures
        preserving(kind) is Some <==> kind == FailureKind::ChecksFailed || kind
            == FailureKind::ChecksUnsettled || kind == FailureKind::PushRejected || kind
            == FailureKind::PushedUnverified || kind == FailureKind::SyncConflict,
        preserving(kind) is Some ==> failure_word(kind) == preserving(kind)->0.word(),
        kind == FailureKind::ChecksFailed ==> failure_word(kind) == "checks-failed"@,
        kind == FailureKind::ChecksUnsettled ==> failure_word(kind) == "checks-unsettled"@,
        kind == FailureKind::PushRejected ==> failure_word(kind) == "push-rejected"@,
        kind == FailureKind::PushedUnverified ==> failure_word(kind) == "pushed-unverified"@,
        kind == FailureKind::SyncConflict ==> failure_word(kind) == "sync-conflict"@,
        kind == FailureKind::Gate || kind == FailureKind::Invalid || kind
            == FailureKind::NotImplemented || kind == FailureKind::HostPrerequisite || kind
            == FailureKind::Cancelled ==> failure_word(kind) == "publication-failed"@,
{
}

/// Two failures settle on the same word only where both leave nothing behind.
pub proof fn law_preserving_failures_are_named_apart(a: FailureKind, b: FailureKind)
    requires
        failure_word(a) == failure_word(b),
        a != b,
    ensures
        preserving(a) is None,
        preserving(b) is None,
{
    reveal_strlit("checks-failed");
    reveal_strlit("checks-unsettled");
    reveal_strlit("push-rejected");
    reveal_strlit("pushed-unverified");
    reveal_strlit("sync-conflict");
    reveal_strlit("publication-failed");
    assert("checks-failed"@.len() == 13 && "checks-unsettled"@.len() == 16);
    assert("push-rejected"@.len() == 13 && "pushed-unverified"@.len() == 17);
    assert("sync-conflict"@.len() == 13 && "publication-failed"@.len() == 18);
    assert("checks-failed"@[0] == 'c' && "push-rejected"@[0] == 'p' && "sync-conflict"@[0] == 's');
}

/// The more specific graph wins: a step that names an agent graph is dispatched under that
/// one whatever its node and the launch name, one that names none under its node's, and
/// only where neither does under the launch's.
pub proof fn law_the_more_specific_graph_wins(
    step: StepModel,
    node: NodeModel,
    other: NodeModel,
    launch: Seq<char>,
    elsewhere: Seq<char>,
)
    ensures
        step.agent_graph is Some ==> Some(graph_for(step, node, launch)) == step.agent_graph,
        step.agent_graph is Some ==> graph_for(step, node, launch) == graph_for(
            step,
            other,
            elsewhere,
        ),
        step.agent_graph is None && node.agent_graph is Some ==> Some(
            graph_for(step, node, launch),
        ) == node.agent_graph,
        step.agent_graph is None && node.agent_graph is None ==> graph_for(step, node, launch)
            == launch,
{
}

/// Which step is turned to: every one it passes is on the branch of a node that declares
/// steps, or is an agent's that declares no diff; and the one it stops at is neither.
pub proof fn law_which_step_is_turned_to(
    steps: Seq<StepModel>,
    declares: bool,
    completed: Seq<Seq<char>>,
    from: int,
)
    requires
        0 <= from <= steps.len(),
    ensures
        ({
            let at = next_step(steps, declares, completed, from);
            &&& from <= at <= steps.len()
            &&& forall|k: int|
                from <= k < at ==> declares && completed.contains((#[trigger] steps[k]).id)
                    || steps[k].kind == NodeKind::Agent && steps[k].expects_no_diff
            &&& at < steps.len() ==> !(declares && completed.contains(steps[at].id)) && !(
            steps[at].kind == NodeKind::Agent && steps[at].expects_no_diff)
        }),
    decreases steps.len() - from,
{
    if from < steps.len() && passed_over(steps[from], declares, completed) {
        law_which_step_is_turned_to(steps, declares, completed, from + 1);
    }
}

/// What a publication's answer settles a node as: done where it published or had nothing
/// to, failed where it was refused or did not land. What a dispatch reported of the branch
/// stands before what the publication did, and only what was published has an address and
/// a landing.
pub proof fn law_what_a_publication_settles(
    node: Seq<char>,
    branch: Option<Seq<char>>,
    base: Option<Seq<char>>,
    undrafted: Option<Seq<char>>,
    answer: Publication,
)
    ensures
        ({
            let s = published_as(node, branch, base, undrafted, answer);
            &&& s.node == node
            &&& s.completed_steps.len() == 0
            &&& s.status == (if answer is Published || answer is Nothing {
                NodeStatus::Done
            } else {
                NodeStatus::Failed
            })
            &&& s.branch == (match answer {
                Publication::Refused(_) => branch,
                Publication::Failed { branch: at, .. } => if branch is Some {
                    branch
                } else {
                    Some(at@)
                },
                Publication::Nothing { branch: at } => if branch is Some {
                    branch
                } else {
                    Some(at@)
                },
                Publication::Published { branch: at, .. } => if branch is Some {
                    branch
                } else {
                    Some(at@)
                },
            })
            &&& match answer {
                Publication::Published { outcome, change_url, landing, .. } => {
                    &&& s.outcome == Some(outcome@)
                    &&& change_url is Some ==> s.change_url == Some(change_url->0@)
                    &&& change_url is None ==> s.change_url is None
                    &&& s.landing == landing
                    &&& s.detail == undrafted
                },
                Publication::Nothing { .. } => s.outcome == Some("no-changes"@) && s.change_url
                    is None && s.landing is None,
                Publication::Refused(why) => {
                    &&& s.outcome == Some("publication-failed"@)
                    &&& s.change_url is None && s.landing is None
                    &&& undrafted is None ==> s.detail == Some(why@)
                },
                Publication::Failed { kind, reason, .. } => {
                    &&& s.outcome == Some(failure_word(kind))
                    &&& s.change_url is None && s.landing is None
                    &&& undrafted is None ==> s.detail == Some("onevcs: "@ + reason@)
                },
            }
            &&& undrafted is Some && s.detail is Some ==> {
                &&& s.detail->0.len() >= undrafted->0.len()
                &&& s.detail->0.subrange(
                    s.detail->0.len() - undrafted->0.len(),
                    s.detail->0.len() as int,
                ) == undrafted->0
            }
            &&& undrafted is Some ==> s.detail is Some
        }),
{
    let s = published_as(node, branch, base, undrafted, answer);
    if undrafted is Some && s.detail is Some {
        assert(s.detail->0.subrange(
            s.detail->0.len() - undrafted->0.len(),
            s.detail->0.len() as int,
        ) =~= undrafted->0);
    }
}

/// A node that stops being retried failed with the word of its last ending, holds the
/// branch that ending preserved, and records no step as done.
pub proof fn law_a_node_that_stops_keeps_its_branch(
    node: Seq<char>,
    preserved: PreservedModel,
    endings: Seq<Preserving>,
)
    ensures
        ({
            let s = stopped(node, preserved, endings);
            &&& s.node == node
            &&& s.status == NodeStatus::Failed
            &&& s.outcome == Some(preserved.outcome.word())
            &&& s.branch == Some(preserved.branch)
            &&& s.change_url is None
            &&& s.landing is None
            &&& s.completed_steps.len() == 0
        }),
{
}

/// A continuation changes three things of its node and no other: the branch it is pinned
/// to, the steps that are recorded as done, and the note it carries.
pub proof fn law_a_continuation_changes_three_things(
    n: NodeModel,
    branch: Seq<char>,
    context: Seq<char>,
)
    ensures
        ({
            let next = next_node(n, branch, context);
            &&& next.branch == Some(branch)
            &&& next.completed_steps is None
            &&& next.context == Some(context)
            &&& NodeModel {
                branch: n.branch,
                completed_steps: n.completed_steps,
                context: n.context,
                ..next
            } == n
        }),
{
}

/// The diagnosis names what the next attempt has to know: the branch it continues, how
/// the publication ended, what it said, and everything it recorded.
pub proof fn law_a_diagnosis_names_the_failure(
    preserved: PreservedModel,
    attempt: nat,
    attempts: nat,
    endings: Seq<Preserving>,
)
    ensures
        ({
            let told = diagnosed(preserved, attempt, attempts, endings);
            &&& exists|a: Seq<char>, b: Seq<char>|
                told == #[trigger] (a + dec(attempt) + " of "@ + dec(attempts) + b)
            &&& exists|a: Seq<char>, b: Seq<char>|
                told == #[trigger] (a + preserved.branch + b)
            &&& exists|a: Seq<char>, b: Seq<char>|
                told == #[trigger] (a + preserved.outcome.word() + b)
            &&& exists|a: Seq<char>, b: Seq<char>|
                told == #[trigger] (a + preserved.reason + b)
            &&& preserved.evidence.len() > 0 ==> exists|a: Seq<char>|
                told == #[trigger] (a + exhibit_lines(preserved.evidence))
            &&& endings.len() > 1 ==> exists|a: Seq<char>, b: Seq<char>|
                told == #[trigger] (a + join(ending_words(endings), ", "@) + b)
        }),
{
    let told = diagnosed(preserved, attempt, attempts, endings);
    let p0 =
        "The previous attempt's publication failed and its branch was preserved. This is attempt "@;
    let p1 = p0 + dec(attempt) + " of "@ + dec(attempts);
    let p2 = p1 + ", and it continues that same branch — "@;
    let p3 = p2 + preserved.branch;
    let p4 = p3
        + " — so the tree that was rejected is the tree this dispatch starts from. Change what the failure below is about; republishing it unaltered meets the same refusal.\n\nThe publication ended `"@;
    let p5 = p4 + preserved.outcome.word();
    let p6 = p5 + "`, and `onevcs` said:\n\n"@;
    let p7 = p6 + preserved.reason;
    let opening = p7 + "\n"@;
    let q0 = opening + "\nEvery attempt so far ended: "@;
    let q1 = q0 + join(ending_words(endings), ", "@);
    let so_far = if endings.len() > 1 { q1 + ".\n"@ } else { opening };
    let r0 = so_far
        + "\nThe publication recorded this evidence, each fetched with `onevcs artifact cat ID`:\n"@;
    assert(told == (if preserved.evidence.len() > 0 {
        r0 + exhibit_lines(preserved.evidence)
    } else {
        so_far
    }));
    assert(told.take(so_far.len() as int) =~= so_far);
    if endings.len() > 1 {
        lemma_leads(told, q1, ".\n"@);
        lemma_leads(told, q0, join(ending_words(endings), ", "@));
        lemma_leads(told, opening, "\nEvery attempt so far ended: "@);
        lemma_rest(q1, told);
    }
    lemma_leads(told, p7, "\n"@);
    lemma_leads(told, p6, preserved.reason);
    lemma_leads(told, p5, "`, and `onevcs` said:\n\n"@);
    lemma_leads(told, p4, preserved.outcome.word());
    lemma_leads(
        told,
        p3,
        " — so the tree that was rejected is the tree this dispatch starts from. Change what the failure below is about; republishing it unaltered meets the same refusal.\n\nThe publication ended `"@,
    );
    lemma_leads(told, p2, preserved.branch);
    lemma_leads(told, p1, ", and it continues that same branch — "@);
    lemma_rest(p1, told);
    lemma_rest(p3, told);
    lemma_rest(p5, told);
    lemma_rest(p7, told);
    assert(told =~= p0 + dec(attempt) + " of "@ + dec(attempts) + told.skip(p1.len() as int));
    assert(told =~= p2 + preserved.branch + told.skip(p3.len() as int));
    assert(told =~= p4 + preserved.outcome.word() + told.skip(p5.len() as int));
    assert(told =~= p6 + preserved.reason + told.skip(p7.len() as int));
    if preserved.evidence.len() > 0 {
        assert(told == r0 + exhibit_lines(preserved.evidence));
    }
    if endings.len() > 1 {
        assert(told =~= q0 + join(ending_words(endings), ", "@) + told.skip(q1.len() as int));
    }
}

proof fn lemma_leads(whole: Seq<char>, head: Seq<char>, more: Seq<char>)
    requires
        (head + more).len() <= whole.len(),
        whole.take((head + more).len() as int) == head + more,
    ensures
        head.len() <= whole.len(),
        whole.take(head.len() as int) == head,
{
    assert forall|i: int| 0 <= i < head.len() implies whole[i] == head[i] by {
        let both = head + more;
        assert(whole.take(both.len() as int)[i] == both[i]);
        assert(both[i] == head[i]);
    }
    assert(whole.take(head.len() as int) =~= head);
}

proof fn lemma_rest(head: Seq<char>, whole: Seq<char>)
    requires
        head.len() <= whole.len(),
        whole.take(head.len() as int) == head,
    ensures
        whole == head + whole.skip(head.len() as int),
{
    assert(whole =~= whole.take(head.len() as int) + whole.skip(head.len() as int));
}

/// A drafting dispatch yields a body exactly where it succeeded with one, and then that
/// one; a dispatch that did not succeed yields its own words.
pub proof fn law_only_a_success_drafts_a_body(ending: Drafting)
    ensures
        drafted_as(ending).0 is Some <==> (ending matches Drafting::Succeeded(report) && report is Body),
        ending matches Drafting::Succeeded(Report::Body(body)) ==> drafted_as(ending).0 == Some(
            body@,
        ),
        drafted_as(ending).1 is Some <==> !(ending is Succeeded),
        ending matches Drafting::Unstarted(why) ==> exists|a: Seq<char>|
            drafted_as(ending).1->0 == #[trigger] (a + why@),
        ending matches Drafting::Lost(why) ==> exists|a: Seq<char>|
            drafted_as(ending).1->0 == #[trigger] (a + why@),
        ending matches Drafting::Failed(said) ==> exists|a: Seq<char>|
            drafted_as(ending).1->0 == #[trigger] (a + said_first(text::lines(said@), 0)),
{
}

/// What is quoted of a dispatch is the first of its lines that says anything.
pub proof fn law_the_first_line_that_says_anything_is_quoted(lines: Seq<Seq<char>>, from: int)
    requires
        0 <= from <= lines.len(),
    ensures
        forall|k: int|
            from <= k < lines.len() && !blank(#[trigger] lines[k]) && (forall|j: int|
                from <= j < k ==> blank(#[trigger] lines[j])) ==> said_first(lines, from) == bound(
                trim(lines[k]),
            ),
        (forall|k: int| from <= k < lines.len() ==> blank(#[trigger] lines[k])) ==> said_first(
            lines,
            from,
        ) == "it reported nothing"@,
    decreases lines.len() - from,
{
    if from < lines.len() {
        law_the_first_line_that_says_anything_is_quoted(lines, from + 1);
    }
}

/// A step's dispatch settles its node done where it succeeded and failed where it did
/// not, and says what it reported only where it failed.
pub proof fn law_a_dispatch_settles_done_or_failed(
    node: Seq<char>,
    succeeded: bool,
    detail: Seq<char>,
)
    ensures
        ({
            let s = dispatch_settles(node, succeeded, detail);
            &&& s.node == node
            &&& s.status == (if succeeded {
                NodeStatus::Done
            } else {
                NodeStatus::Failed
            })
            &&& s.detail is Some <==> !succeeded
            &&& s.outcome is None && s.branch is None && s.change_url is None && s.landing is None
            &&& s.completed_steps.len() == 0
        }),
{
}

/// A node without a repository is never attempted as a lifecycle node.
pub proof fn law_a_lifecycle_node_needs_a_repository(n: NodeModel)
    ensures
        n.repo is None ==> unattemptable(n) is Some,
{
}

/// A record is still to relay exactly where its stream has not been relayed that far: a
/// stream nothing was relayed of is to read from its beginning, and otherwise only what
/// is numbered above the highest number relayed.
pub proof fn law_what_is_still_to_relay(marks: Map<Seq<char>, u64>, envelope: Envelope)
    ensures
        !marks.contains_key(envelope.stream@) ==> past(marks, envelope),
        marks.contains_key(envelope.stream@) && envelope.seq <= marks[envelope.stream@] ==> !past(
            marks,
            envelope,
        ),
        marks.contains_key(envelope.stream@) && envelope.seq > marks[envelope.stream@] ==> past(
            marks,
            envelope,
        ),
{
}

/// A roll-up counts every attempt and says what each ended with, in order and numbered
/// from one.
pub proof fn law_a_roll_up_names_every_attempt(branch: Seq<char>, endings: Seq<Preserving>)
    ensures
        numbered(endings).len() == endings.len(),
        forall|i: int|
            0 <= i < endings.len() ==> #[trigger] numbered(endings)[i] == dec((i + 1) as nat) + " "@
                + endings[i].word(),
        exists|a: Seq<char>|
            roll_up(branch, endings) == #[trigger] (dec(endings.len()) + a + branch + ": "@ + join(
                numbered(endings),
                ", "@,
            )),
{
    let a = " publication attempt"@ + (if endings.len() == 1 {
        ""@
    } else {
        "s"@
    }) + " on "@;
    assert(roll_up(branch, endings) =~= dec(endings.len()) + a + branch + ": "@ + join(
        numbered(endings),
        ", "@,
    ));
}

/// A settlement is seen whole.
pub proof fn law_a_settlement_is_seen_whole(value: Settlement)
    ensures
        value@.node == value.node@,
        value@.status == value.status,
        value.outcome is None <==> value@.outcome is None,
        value.outcome matches Some(s) ==> value@.outcome == Some(s@),
        value.detail is None <==> value@.detail is None,
        value.detail matches Some(s) ==> value@.detail == Some(s@),
        value.branch is None <==> value@.branch is None,
        value.branch matches Some(s) ==> value@.branch == Some(s@),
        value.change_url is None <==> value@.change_url is None,
        value.change_url matches Some(s) ==> value@.change_url == Some(s@),
        value@.landing == value.landing,
        value@.completed_steps.len() == value.completed_steps@.len(),
        forall|i: int| 0 <= i < value.completed_steps@.len() ==> #[trigger] value@.completed_steps[i] == value.completed_steps@[i]@,
{
}

/// An attempt that left its work behind is seen whole, each artifact by its kind and what it is fetched by.
pub proof fn law_a_preserved_attempt_is_seen_whole(value: Preserved)
    ensures
        value@.branch == value.branch@,
        value@.outcome == value.outcome,
        value@.reason == value.reason@,
        value.undrafted is None <==> value@.undrafted is None,
        value.undrafted matches Some(s) ==> value@.undrafted == Some(s@),
        value@.evidence.len() == value.evidence@.len(),
        forall|i: int|
            0 <= i < value.evidence@.len() ==> #[trigger] value@.evidence[i] == (
                value.evidence@[i].kind@,
                value.evidence@[i].id@,
            ),
{
}

/// What a settled member's answer says of a body: a body where it holds one as a string;
/// else that the schema refused every answer, where it says so; else nothing. An answer
/// that is no object says nothing.
pub proof fn law_what_an_answer_says_of_a_body(payload: Seq<(String, Json)>, body: Seq<char>)
    ensures
        ({
            let answer = field_in(payload, "answer"@);
            let held = match answer {
                Some(Json::Object(fields)) => field_in(fields@, "body"@),
                _ => None,
            };
            let refused = match answer {
                Some(Json::Object(fields)) => field_in(fields@, "schema_refused"@),
                _ => None,
            };
            &&& answered(payload) == Some((Some(body), false)) <==> (held matches Some(
                Json::Text(s),
            ) && s@ == body)
            &&& answered(payload) == Some((None::<Seq<char>>, true)) <==> !(held is Some && held->0
                is Text) && refused == Some(Json::Bool(true))
            &&& answered(payload) is None <==> !(held is Some && held->0 is Text) && refused
                != Some(Json::Bool(true))
        }),
{
}

/// Where a workstream turns next: past every step its branch carries, where the node
/// declares steps, and past every agent's step that declares no diff, to the first that is
/// neither.
pub proof fn law_where_a_workstream_turns(work: Workstream, k: int)
    requires
        work.at <= work.steps@.len(),
    ensures
        work.order().len() == work.steps@.len(),
        forall|i: int| 0 <= i < work.steps@.len() ==> #[trigger] work.order()[i] == work.steps@[i].0@,
        work.at <= work.turn() <= work.steps@.len(),
        work.at <= k < work.turn() ==> work.declares && texts(work.completed@).contains(
            work.order()[k].id,
        ) || work.order()[k].kind == NodeKind::Agent && work.order()[k].expects_no_diff,
        work.turn() < work.steps@.len() ==> !(work.declares && texts(work.completed@).contains(
            work.order()[work.turn()].id,
        )) && !(work.order()[work.turn()].kind == NodeKind::Agent && work.order()[
        work.turn()].expects_no_diff),
{
    law_which_step_is_turned_to(
        work.order(),
        work.declares,
        texts(work.completed@),
        work.at as int,
    );
    if work.at <= k < work.turn() {
        let step = work.order()[k];
        assert(work.declares && texts(work.completed@).contains(step.id) || step.kind
            == NodeKind::Agent && step.expects_no_diff);
    }
}

/// A node is attempted exactly where it names a repository, its steps have an order, and
/// each has a turn to run in.
pub proof fn law_which_nodes_are_attempted(n: NodeModel)
    ensures
        unattemptable(n) is None <==> n.repo is Some && (n.steps is Some
            ==> crate::steps::orderable(n.steps->0)) && forall|i: int|
            0 <= i < dispatch_order(n).len() ==> (#[trigger] dispatch_order(n)[i]).max_turns
                != Some(0u32),
{
    crate::steps::law_what_starts_a_workstream(n);
}

/// Every artifact of a failed publication is listed, on a line of its own and in order, by
/// its kind and what it is fetched by.
pub proof fn law_every_artifact_is_listed(
    evidence: Seq<(Seq<char>, Seq<char>)>,
    kind: Seq<char>,
    id: Seq<char>,
)
    ensures
        exhibit_lines(Seq::empty()).len() == 0,
        exhibit_lines(evidence.push((kind, id))) == exhibit_lines(evidence) + "- "@ + kind + " — "@
            + id + "\n"@,
{
    assert(evidence.push((kind, id)).drop_last() =~= evidence);
}

/// A budget of attempts is never overspent: the attempt that runs is within it, and each
/// one before it has its ending.
pub proof fn law_a_budget_of_attempts_is_kept(retries: Retries)
    ensures
        retries.wf() <==> retries.attempt >= 1 && retries.attempt <= retries.attempts
            && retries.endings@.len() + 1 == retries.attempt,
{
}

/// A drafting ending is told in its own word and its own reason, and each reason says that
/// no body was drafted.
pub proof fn law_how_a_drafting_ending_is_told(ending: Undrafted)
    ensures
        ending is Dispatch ==> ending.word() == "dispatch-failed"@,
        ending is SchemaRefused ==> ending.word() == "schema-refused"@,
        ending is Bodyless ==> ending.word() == "no-body"@,
        ending matches Undrafted::Dispatch(why) ==> ending.reason()
            == "the change request's body was not drafted: "@ + why@,
{
}

} // verus!
