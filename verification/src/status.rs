//! Where a node has got to, whether its change landed, and how a whole graph
//! settled.
use vstd::prelude::*;

use crate::error::{EXIT_QUEUED, EXIT_SUCCESS};
use crate::text;

verus! {

/// Where a node has got to.
///
/// The settled statuses are recorded in the journal; [`Blocked`](Self::Blocked)
/// and [`Skipped`](Self::Skipped) are derived on every read and never written as
/// a node's own settlement.
#[derive(Debug, Clone, Copy, PartialEq, Eq, PartialOrd, Ord, Hash, Structural)]
pub enum NodeStatus {
    /// Not yet eligible, and nothing prevents it becoming so.
    Pending,
    /// Eligible now: every dependency is `done`.
    Ready,
    /// A dispatch is in flight.
    Running,
    /// A ready human action needs a person.
    Waiting,
    /// Transitively gated by a waiting human or a parked dependency.
    Blocked,
    /// A planner idled it; no later pass dispatches it until it is requeued.
    Parked,
    /// A drop or a retry stopped its dispatch cooperatively.
    Cancelled,
    /// It executed and completed.
    Done,
    /// It executed and completed, and the change it published is a draft until a
    /// release it adopted early happens.
    CompleteDraft,
    /// It executed and failed.
    Failed,
    /// A failed dependency made execution unsafe.
    Skipped,
}

impl NodeStatus {
    /// The word a status is written as.
    pub open spec fn word(self) -> Seq<char> {
        match self {
            NodeStatus::Pending => "pending"@,
            NodeStatus::Ready => "ready"@,
            NodeStatus::Running => "running"@,
            NodeStatus::Waiting => "waiting"@,
            NodeStatus::Blocked => "blocked"@,
            NodeStatus::Parked => "parked"@,
            NodeStatus::Cancelled => "cancelled"@,
            NodeStatus::Done => "done"@,
            NodeStatus::CompleteDraft => "complete-but-draft"@,
            NodeStatus::Failed => "failed"@,
            NodeStatus::Skipped => "skipped"@,
        }
    }

    /// The word this status is written and rendered as.
    pub fn as_str(self) -> (r: &'static str)
        ensures
            r@ == self.word(),
    {
        match self {
            NodeStatus::Pending => "pending",
            NodeStatus::Ready => "ready",
            NodeStatus::Running => "running",
            NodeStatus::Waiting => "waiting",
            NodeStatus::Blocked => "blocked",
            NodeStatus::Parked => "parked",
            NodeStatus::Cancelled => "cancelled",
            NodeStatus::Done => "done",
            NodeStatus::CompleteDraft => "complete-but-draft",
            NodeStatus::Failed => "failed",
            NodeStatus::Skipped => "skipped",
        }
    }

    /// The status a word stands for.
    pub open spec fn read(text: Seq<char>) -> Option<NodeStatus> {
        if text == NodeStatus::Pending.word() {
            Some(NodeStatus::Pending)
        } else if text == NodeStatus::Ready.word() {
            Some(NodeStatus::Ready)
        } else if text == NodeStatus::Running.word() {
            Some(NodeStatus::Running)
        } else if text == NodeStatus::Waiting.word() {
            Some(NodeStatus::Waiting)
        } else if text == NodeStatus::Blocked.word() {
            Some(NodeStatus::Blocked)
        } else if text == NodeStatus::Parked.word() {
            Some(NodeStatus::Parked)
        } else if text == NodeStatus::Cancelled.word() {
            Some(NodeStatus::Cancelled)
        } else if text == NodeStatus::Done.word() {
            Some(NodeStatus::Done)
        } else if text == NodeStatus::CompleteDraft.word() {
            Some(NodeStatus::CompleteDraft)
        } else if text == NodeStatus::Failed.word() {
            Some(NodeStatus::Failed)
        } else if text == NodeStatus::Skipped.word() {
            Some(NodeStatus::Skipped)
        } else {
            None
        }
    }

    /// No two statuses are written alike.
    pub proof fn lemma_words_differ(a: NodeStatus, b: NodeStatus)
        requires
            a.word() == b.word(),
        ensures
            a == b,
    {
        reveal_strlit("pending");
        reveal_strlit("ready");
        reveal_strlit("running");
        reveal_strlit("waiting");
        reveal_strlit("blocked");
        reveal_strlit("parked");
        reveal_strlit("cancelled");
        reveal_strlit("done");
        reveal_strlit("complete-but-draft");
        reveal_strlit("failed");
        reveal_strlit("skipped");
        let u = a.word();
        let v = b.word();
        assert(u[0] == v[0] && u[1] == v[1] && u[2] == v[2] && u.len() == v.len());
    }

    /// Read a status back from a journal record.
    pub fn parse(text: &str) -> (r: Option<Self>)
        ensures
            r == NodeStatus::read(text@),
    {
        if text::same(text, "pending") {
            Some(NodeStatus::Pending)
        } else if text::same(text, "ready") {
            Some(NodeStatus::Ready)
        } else if text::same(text, "running") {
            Some(NodeStatus::Running)
        } else if text::same(text, "waiting") {
            Some(NodeStatus::Waiting)
        } else if text::same(text, "blocked") {
            Some(NodeStatus::Blocked)
        } else if text::same(text, "parked") {
            Some(NodeStatus::Parked)
        } else if text::same(text, "cancelled") {
            Some(NodeStatus::Cancelled)
        } else if text::same(text, "done") {
            Some(NodeStatus::Done)
        } else if text::same(text, "complete-but-draft") {
            Some(NodeStatus::CompleteDraft)
        } else if text::same(text, "failed") {
            Some(NodeStatus::Failed)
        } else if text::same(text, "skipped") {
            Some(NodeStatus::Skipped)
        } else {
            None
        }
    }

    /// A status the loop is finished with.
    pub open spec fn settled(self) -> bool {
        ||| self == NodeStatus::Done
        ||| self == NodeStatus::Failed
        ||| self == NodeStatus::Skipped
        ||| self == NodeStatus::Waiting
        ||| self == NodeStatus::Blocked
        ||| self == NodeStatus::Parked
        ||| self == NodeStatus::Cancelled
    }

    /// Whether the loop is finished with the node.
    ///
    /// [`CompleteDraft`](Self::CompleteDraft) is deliberately not one: the release
    /// it is waiting on dispatches the node once more.
    pub fn is_settled(self) -> (r: bool)
        ensures
            r == self.settled(),
    {
        match self {
            NodeStatus::Done | NodeStatus::Failed | NodeStatus::Skipped | NodeStatus::Waiting
            | NodeStatus::Blocked | NodeStatus::Parked | NodeStatus::Cancelled => true,
            _ => false,
        }
    }

    /// Whether a later pass may still dispatch the node: a done one is never
    /// rescheduled, and a parked one waits to be requeued.
    pub fn is_dispatchable(self) -> (r: bool)
        ensures
            r == (self != NodeStatus::Done && self != NodeStatus::Parked),
    {
        match self {
            NodeStatus::Done | NodeStatus::Parked => false,
            _ => true,
        }
    }
}

/// Whether a settled node's change reached the branch it was published onto.
///
/// A qualifier beside the status rather than a status of its own: a node settles
/// when it publishes, and a published change may still be open.
#[derive(Debug, Clone, Copy, PartialEq, Eq, PartialOrd, Ord, Hash, Structural)]
pub enum Landing {
    /// The change reached its base branch, and this run saw it get there.
    Landed,
    /// The change has not reached its base branch.
    Unlanded,
}

impl Landing {
    /// The word a landing is written as.
    pub open spec fn word(self) -> Seq<char> {
        match self {
            Landing::Landed => "landed"@,
            Landing::Unlanded => "unlanded"@,
        }
    }

    /// The word this landing is written and rendered as.
    pub fn as_str(self) -> (r: &'static str)
        ensures
            r@ == self.word(),
    {
        match self {
            Landing::Landed => "landed",
            Landing::Unlanded => "unlanded",
        }
    }

    /// The landing a word stands for.
    pub open spec fn read(text: Seq<char>) -> Option<Landing> {
        if text == Landing::Landed.word() {
            Some(Landing::Landed)
        } else if text == Landing::Unlanded.word() {
            Some(Landing::Unlanded)
        } else {
            None
        }
    }

    /// The two landings are not written alike.
    pub proof fn lemma_words_differ(a: Landing, b: Landing)
        requires
            a.word() == b.word(),
        ensures
            a == b,
    {
        reveal_strlit("landed");
        reveal_strlit("unlanded");
        assert(a.word()[0] == b.word()[0]);
        assert(Landing::Landed.word()[0] == 'l');
        assert(Landing::Unlanded.word()[0] == 'u');
    }

    /// Read a landing back from a journal record; a word this build does not know
    /// is no landing at all.
    pub fn parse(text: &str) -> (r: Option<Self>)
        ensures
            r == Landing::read(text@),
    {
        if text::same(text, "landed") {
            Some(Landing::Landed)
        } else if text::same(text, "unlanded") {
            Some(Landing::Unlanded)
        } else {
            None
        }
    }

    /// A landing is not a status: neither vocabulary reads the other's words.
    pub proof fn lemma_no_status(landing: Landing, status: NodeStatus)
        ensures
            landing.word() != status.word(),
    {
        reveal_strlit("landed");
        reveal_strlit("unlanded");
        reveal_strlit("pending");
        reveal_strlit("ready");
        reveal_strlit("running");
        reveal_strlit("waiting");
        reveal_strlit("blocked");
        reveal_strlit("parked");
        reveal_strlit("cancelled");
        reveal_strlit("done");
        reveal_strlit("complete-but-draft");
        reveal_strlit("failed");
        reveal_strlit("skipped");
        assert(landing.word()[0] == 'l' || landing.word()[0] == 'u');
    }
}

/// How a whole graph settled.
#[derive(Debug, Clone, Copy, PartialEq, Eq, Hash, Structural)]
pub enum GraphState {
    /// Every node is `done`.
    Complete,
    /// Something waits, is blocked, or is parked, and nothing failed.
    Waiting,
    /// A node failed or was skipped.
    Failed,
}

impl GraphState {
    /// The word a state is written as.
    pub open spec fn word(self) -> Seq<char> {
        match self {
            GraphState::Complete => "complete"@,
            GraphState::Waiting => "waiting"@,
            GraphState::Failed => "failed"@,
        }
    }

    /// The word this state is written and rendered as.
    pub fn as_str(self) -> (r: &'static str)
        ensures
            r@ == self.word(),
    {
        match self {
            GraphState::Complete => "complete",
            GraphState::Waiting => "waiting",
            GraphState::Failed => "failed",
        }
    }

    /// The process exit status a settled graph carries.
    pub fn exit_code(self) -> (r: i32)
        ensures
            r == (if self == GraphState::Complete {
                EXIT_SUCCESS
            } else {
                EXIT_QUEUED
            }),
    {
        match self {
            GraphState::Complete => EXIT_SUCCESS,
            _ => EXIT_QUEUED,
        }
    }
}

/// A status written as its word is the status read back from it, and nothing
/// else is read as that status.
pub proof fn law_status_round_trip(status: NodeStatus, text: Seq<char>)
    ensures
        NodeStatus::read(text) == Some(status) <==> text == status.word(),
{
    match NodeStatus::read(status.word()) {
        Some(s) => {
            assert(s.word() == status.word());
            NodeStatus::lemma_words_differ(s, status);
        },
        None => {},
    }
}

/// A landing written as its word is the landing read back from it, and nothing
/// else is read as that landing.
pub proof fn law_landing_round_trip(landing: Landing, text: Seq<char>)
    ensures
        Landing::read(text) == Some(landing) <==> text == landing.word(),
{
    match Landing::read(landing.word()) {
        Some(l) => {
            assert(l.word() == landing.word());
            Landing::lemma_words_differ(l, landing);
        },
        None => {},
    }
}

/// A landing is not a status: neither vocabulary reads the other's words.
pub proof fn law_landing_is_no_status(landing: Landing, status: NodeStatus)
    ensures
        NodeStatus::read(landing.word()) is None,
        Landing::read(status.word()) is None,
{
    Landing::lemma_no_status(Landing::Landed, status);
    Landing::lemma_no_status(Landing::Unlanded, status);
    match NodeStatus::read(landing.word()) {
        Some(s) => {
            Landing::lemma_no_status(landing, s);
        },
        None => {},
    }
}

/// The words of the statuses, the landings and the states, as journals and views write
/// them.
pub proof fn law_the_words_of_the_statuses()
    ensures
        NodeStatus::Pending.word() == "pending"@,
        NodeStatus::Ready.word() == "ready"@,
        NodeStatus::Running.word() == "running"@,
        NodeStatus::Waiting.word() == "waiting"@,
        NodeStatus::Blocked.word() == "blocked"@,
        NodeStatus::Parked.word() == "parked"@,
        NodeStatus::Cancelled.word() == "cancelled"@,
        NodeStatus::Done.word() == "done"@,
        NodeStatus::CompleteDraft.word() == "complete-but-draft"@,
        NodeStatus::Failed.word() == "failed"@,
        NodeStatus::Skipped.word() == "skipped"@,
        Landing::Landed.word() == "landed"@,
        Landing::Unlanded.word() == "unlanded"@,
        GraphState::Complete.word() == "complete"@,
        GraphState::Waiting.word() == "waiting"@,
        GraphState::Failed.word() == "failed"@,
        EXIT_SUCCESS == 0,
        EXIT_QUEUED == 1,
{
}

/// The loop is finished with a node unless it may still move: pending, ready, running, or
/// a draft whose release dispatches it once more.
pub proof fn law_what_may_still_move_is_not_settled(status: NodeStatus)
    ensures
        !status.settled() <==> status == NodeStatus::Pending || status == NodeStatus::Ready
            || status == NodeStatus::Running || status == NodeStatus::CompleteDraft,
{
}

} // verus!
