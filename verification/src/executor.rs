//! Where a node's dispatch runs, and what is decided on the way to running it.
//!
//! A dispatch goes through stages, each a type of its own, so that no stage can be
//! reached but through the one before it: what was asked, what the launch composes
//! onto it, where it runs, what its environment holds, and the graph launch itself.
//! Between two stages the caller does the work this module cannot: it reads the
//! launch record, runs the environment hook, opens a session, makes a directory,
//! starts the graph.
use std::sync::atomic::{AtomicBool, Ordering};
use std::sync::Arc;
use vstd::prelude::*;

use crate::controls::{NodeControls, WORKER_MEMBER};
use crate::error::Error;
use crate::event::{Envelope, Labels, LabelsModel};
use crate::filter::EventFilter;
use crate::hooks::RUN_ID_ENV;
use crate::ledger::{
    join_path, joined, DispatchClaim, LaunchRecord, RunPaths, LAUNCH_RECORD, RUNS_DIR_ENV,
    UNKNOWN_LAUNCHER,
};
use crate::names::NameMap;
use crate::plan::{copy_strings, copy_text, pairs_of};
use crate::text::{self, dec, text_of, texts};
use crate::validate::PR_AUTHOR_PERSONA;

verus! {

/// The session label naming the run that opened a node's session.
pub const SESSION_RUN_LABEL: &'static str = "run";

/// The session label naming the node that opened the session.
pub const SESSION_NODE_LABEL: &'static str = "node";

/// The session label naming the launching session. Omitted, never stamped empty,
/// for a launch nothing attributed.
pub const SESSION_LAUNCHER_LABEL: &'static str = "launcher";

/// The variable naming the session whose worktree a dispatch runs in.
pub const SESSION_ENV: &'static str = "ONEPIPELINE_SESSION";

/// The variable naming the side a dispatch asks its manager as: an opaque word,
/// never read as a path.
pub const ASKER_ENV: &'static str = "ONEPIPELINE_ASKER";

/// The variable naming a dispatch's own scratch directory.
pub const NODE_SCRATCH_DIR_ENV: &'static str = "ONEPIPELINE_NODE_SCRATCH_DIR";

/// The variable holding the history labels a launch is stamped with.
pub const LABELS_ENV: &'static str = "ONEHARNESS_HISTORY_LABELS";

/// The variable stating the one-minute load average this process reads in place of
/// the host's.
pub const LOAD1_ENV: &'static str = "ONEPIPELINE_LOAD1";

/// What the line of a host's memory account that says how much is available opens
/// with.
pub const MEM_AVAILABLE: &'static str = "MemAvailable:";

/// Enough numbers that walking past every directory a run has already made is never
/// the reason a dispatch fails, and few enough that a base directory nothing can be
/// created in fails rather than spinning.
pub const TRIES: u64 = 4096;

/// What an executor can do.
#[derive(Debug, Clone, Copy, PartialEq, Eq, Hash, Structural)]
pub struct Capabilities {
    /// Whether it can open a session, so that it accepts a session workspace as well
    /// as a path.
    pub vcs_sessions: bool,
}

impl Default for Capabilities {
    fn default() -> (r: Self)
        ensures
            !r.vcs_sessions,
    {
        Capabilities { vcs_sessions: false }
    }
}

/// The cooperative cancellation signal a dispatch carries.
///
/// Shared rather than copied: the engine raises it on one side while the dispatch
/// observes it on the other.
#[derive(Debug)]
pub struct CancellationToken {
    signal: Arc<AtomicBool>,
}

impl CancellationToken {
    /// The signal this token is a side of. Two tokens of one signal are raised
    /// together.
    pub closed spec fn side_of(&self) -> AtomicBool {
        *self.signal
    }

    /// A signal nobody has raised.
    ///
    /// What a signal holds is shared memory, which another side may change at any
    /// moment, so no contract here says what it reads.
    pub fn new() -> (r: Self) {
        CancellationToken { signal: Arc::new(AtomicBool::new(false)) }
    }

    /// Raise it.
    pub fn cancel(&self) {
        self.signal.store(true, Ordering::SeqCst);
    }

    /// Whether it has been raised.
    pub fn is_cancelled(&self) -> (r: bool) {
        self.signal.load(Ordering::SeqCst)
    }
}

impl Clone for CancellationToken {
    /// Another side of the same signal.
    fn clone(&self) -> (r: Self)
        ensures
            r.side_of() == self.side_of(),
    {
        CancellationToken { signal: self.signal.clone() }
    }
}

impl PartialEq for CancellationToken {
    /// Whether the two signals are raised alike, each read as it stands.
    fn eq(&self, other: &Self) -> (r: bool) {
        self.is_cancelled() == other.is_cancelled()
    }
}

impl vstd::std_specs::cmp::PartialEqSpecImpl for CancellationToken {
    open spec fn obeys_eq_spec() -> bool {
        false
    }

    open spec fn eq_spec(&self, other: &Self) -> bool {
        self.side_of() == other.side_of()
    }
}

/// What a session is asked for with.
pub struct SessionRequest {
    /// The repository: an identity key, a registered alias, or a path.
    pub repo: String,
    /// The branch to work on.
    pub branch: Option<String>,
    /// The branch a fresh one is cut from.
    pub base: Option<String>,
    /// The checkout the session's commands run in.
    pub execution_checkout: Option<String>,
    /// How many workspaces the pool holds.
    pub pool: Option<u32>,
    /// How many more may be made beside it.
    pub overflow: Option<Overflow>,
    /// What the session's record is labelled with.
    pub labels: NameMap<String>,
}

/// How many workspaces may be made beside a pool.
#[derive(Debug, Clone, Copy, PartialEq, Eq, Structural)]
pub enum Overflow {
    /// As many as are asked for.
    Unlimited,
    /// At most this many.
    Bounded(u32),
}

/// An open session.
#[derive(Debug, PartialEq, Eq)]
pub struct Session {
    /// The token it is addressed by.
    pub token: String,
    /// The worktree the change is made in.
    pub worktree: String,
    /// The branch the worktree has checked out.
    pub branch: String,
}

/// The workspace a dispatch runs in.
pub enum WorkspaceSpec {
    /// A directory that already exists on the machine running the dispatch.
    Path(String),
    /// A session the machine running the dispatch opens there.
    VcsSession(SessionRequest),
}

/// One dispatch, as an executor is asked for it.
pub struct DispatchRequest {
    /// The node-scope agent-graph config.
    pub graph: String,
    /// The task prose.
    pub task: String,
    /// Where in the run this dispatch sits.
    pub labels: Labels,
    /// The per-node controls this dispatch runs under.
    pub controls: NodeControls,
    /// The workspace to run in.
    pub workspace: WorkspaceSpec,
    /// Raised to stop the dispatch cooperatively.
    pub cancel: CancellationToken,
    /// Which attempt of the node this dispatch is, counting from one.
    pub attempt: u32,
}

/// How a dispatch is stopped.
#[derive(Debug, Clone, Copy, PartialEq, Eq, Hash, Structural)]
pub enum CancelMode {
    /// Raise the cancellation signal and let the dispatch preserve its work.
    Cooperative,
    /// Terminate it.
    Kill,
}

/// How a dispatch settled.
#[derive(Debug, Clone, PartialEq, Eq, Hash)]
pub struct DispatchOutcome {
    /// Whether the dispatch completed successfully.
    pub succeeded: bool,
    /// What it said when it did not.
    pub detail: String,
    /// The session token, when the workspace was a session.
    pub session: Option<String>,
    /// The branch that session has checked out.
    pub branch: Option<String>,
}

impl Default for DispatchOutcome {
    fn default() -> (r: Self)
        ensures
            !r.succeeded,
            r.detail@.len() == 0,
            r.session is None,
            r.branch is None,
    {
        let detail: String = String::from_str("");
        proof {
            reveal_strlit("");
        }
        DispatchOutcome { succeeded: false, detail, session: None, branch: None }
    }
}

/// How a graph run ended.
#[derive(Debug, PartialEq, Eq)]
pub struct GraphEnd {
    /// Whether it succeeded.
    pub succeeded: bool,
    /// What it wrote on its error stream.
    pub stderr: String,
}

/// Where a node's dispatch runs.
pub trait Executor {
    /// The name the rules file selects this executor by.
    fn name(&self) -> &str;

    /// What this executor can do.
    fn capabilities(&self) -> Capabilities;

    /// Begin one dispatch.
    fn dispatch(&self, req: DispatchRequest) -> Requested;
}

/// A started dispatch.
pub trait DispatchHandle {
    /// The events it produces: what its graph run relayed, behind the event of the
    /// session it opened.
    fn events(&self, opened: Option<Envelope>, relayed: Vec<Envelope>) -> Vec<Envelope>;

    /// How it settled, once its graph run has ended.
    fn wait(&self, ended: GraphEnd) -> DispatchOutcome;

    /// Stop it, and say whether its graph run is torn down too.
    fn cancel(&self, mode: CancelMode) -> bool;
}

/// The executor that runs a dispatch on this machine: the only one that supports
/// both kinds of workspace.
#[derive(Debug, Clone, Copy, PartialEq, Eq, Hash, Structural)]
pub struct LocalExecutor;

impl Executor for LocalExecutor {
    fn name(&self) -> (r: &str)
        ensures
            r@ == "local"@,
    {
        "local"
    }

    fn capabilities(&self) -> (r: Capabilities)
        ensures
            r.vcs_sessions,
    {
        Capabilities { vcs_sessions: true }
    }

    fn dispatch(&self, req: DispatchRequest) -> (r: Requested)
        ensures
            r.request == req,
    {
        Requested { request: req }
    }
}

/// Whether a launch is attributed to the session it names.
pub open spec fn is_attributed(session: Seq<char>) -> bool {
    session.len() > 0 && session != UNKNOWN_LAUNCHER@
}

/// Whether a launch is attributed to the session it names.
pub fn attributed(session: &str) -> (r: bool)
    ensures
        r == is_attributed(session@),
{
    proof {
        reveal_strlit("");
        assert(session@.len() == 0 ==> session@ =~= ""@);
    }
    !text::same(session, "") && !text::same(session, UNKNOWN_LAUNCHER)
}

/// Labels, as contracts speak of them.
pub open spec fn label_map(labels: NameMap<String>) -> Map<Seq<char>, Seq<char>> {
    labels@.map_values(|value: String| value@)
}

/// Labels with one key decided: put where there is a value for it, taken out where
/// there is none.
pub open spec fn decided(
    labels: Map<Seq<char>, Seq<char>>,
    key: Seq<char>,
    value: Option<Seq<char>>,
) -> Map<Seq<char>, Seq<char>> {
    match value {
        Some(value) => labels.insert(key, value),
        None => labels.remove(key),
    }
}

/// The launching session of a launch attributed to one.
pub open spec fn launcher_of(launched: Option<LaunchRecord>) -> Option<Seq<char>> {
    match launched {
        Some(record) => if is_attributed(record.session@) {
            Some(record.session@)
        } else {
            None
        },
        None => None,
    }
}

/// The labels a session is opened with: the caller's own, with the engine's keys
/// decided over them.
pub open spec fn stamped(
    asked: Map<Seq<char>, Seq<char>>,
    labels: LabelsModel,
    launcher: Option<Seq<char>>,
) -> Map<Seq<char>, Seq<char>> {
    decided(
        decided(
            decided(asked, SESSION_RUN_LABEL@, labels.run_id),
            SESSION_NODE_LABEL@,
            labels.node,
        ),
        SESSION_LAUNCHER_LABEL@,
        launcher,
    )
}

fn decide(labels: &mut NameMap<String>, key: &str, value: Option<&str>)
    requires
        old(labels).wf(),
    ensures
        final(labels).wf(),
        label_map(*final(labels)) == decided(
            label_map(*old(labels)),
            key@,
            match value {
                Some(value) => Some(value@),
                None => None,
            },
        ),
{
    let ghost before = label_map(*labels);
    match value {
        Some(value) => {
            labels.insert(key.to_owned(), value.to_owned());
            assert(label_map(*labels) =~= before.insert(key@, value@));
        },
        None => {
            let _ = labels.remove(key);
            assert(label_map(*labels) =~= before.remove(key@));
        },
    }
}

fn borrowed(s: &Option<String>) -> (r: Option<&str>)
    ensures
        text_of(*s) == (match r {
            Some(r) => Some(r@),
            None => None,
        }),
{
    match s {
        Some(s) => Some(s.as_str()),
        None => None,
    }
}

/// The labels a node's session is opened with.
///
/// Whatever the request already carries, with the engine's own keys decided over it:
/// the run and the node off the dispatch's labels, and the launching session off the
/// run's launch record when that launch was attributed to one. A key the engine has
/// no value for is removed rather than left as the caller spelled it, so a session
/// never names a launcher its launch did not have.
pub fn session_labels(asked: NameMap<String>, labels: &Labels, launched: Option<&LaunchRecord>) -> (r:
    NameMap<String>)
    requires
        asked.wf(),
    ensures
        r.wf(),
        label_map(r) == stamped(
            label_map(asked),
            labels@,
            launcher_of(
                match launched {
                    Some(record) => Some(*record),
                    None => None,
                },
            ),
        ),
{
    let mut out = asked;
    let launcher: Option<&str> = match launched {
        Some(record) => if attributed(record.session.as_str()) {
            Some(record.session.as_str())
        } else {
            None
        },
        None => None,
    };
    decide(&mut out, SESSION_RUN_LABEL, borrowed(&labels.run_id));
    decide(&mut out, SESSION_NODE_LABEL, borrowed(&labels.node));
    decide(&mut out, SESSION_LAUNCHER_LABEL, launcher);
    out
}

/// The override that sets a dispatch's persona.
pub open spec fn persona_set(persona: Seq<char>) -> Seq<char> {
    "members."@ + WORKER_MEMBER@ + ".persona="@ + persona
}

/// The overrides one dispatch's graph launch carries, in the order they apply: the
/// run's own, the persona, then the node's own settings. None of them for the
/// drafting dispatch.
pub open spec fn sets_of(
    launched: Option<LaunchRecord>,
    labels: LabelsModel,
    controls: NodeControls,
) -> Seq<Seq<char>> {
    if labels.persona == Some(PR_AUTHOR_PERSONA@) {
        Seq::empty()
    } else {
        let run_wide = match launched {
            Some(record) => texts(record.node_sets@),
            None => Seq::empty(),
        };
        let persona = match labels.persona {
            Some(persona) => seq![persona_set(persona)],
            None => Seq::empty(),
        };
        run_wide + persona + controls.settings()
    }
}

/// The overrides one dispatch's graph launch carries, in the order they apply.
///
/// An operator's `--node-set` is run-wide, and a control the plan wrote against one
/// node is the more specific of the two, so it comes after. The drafting dispatch
/// carries none: the graph it runs is the operator's whole statement about how a
/// change request is drafted.
///
/// A control this build cannot apply refuses the launch here as well as at
/// validation.
pub fn node_sets(launched: Option<&LaunchRecord>, labels: &Labels, controls: &NodeControls) -> (r:
    Result<Vec<String>, Error>)
    ensures
        match r {
            Ok(sets) => {
                &&& labels@.persona == Some(PR_AUTHOR_PERSONA@) || controls.wf()
                &&& texts(sets@) == sets_of(
                    match launched {
                        Some(record) => Some(*record),
                        None => None,
                    },
                    labels@,
                    *controls,
                )
            },
            Err(why) => {
                &&& labels@.persona != Some(PR_AUTHOR_PERSONA@)
                &&& !controls.wf()
                &&& why matches Error::Invalid(why) && why@ == crate::controls::NO_TURN@
            },
        },
{
    if text::is_text(&labels.persona, PR_AUTHOR_PERSONA) {
        let none: Vec<String> = Vec::new();
        assert(texts(none@) =~= Seq::<Seq<char>>::empty());
        return Ok(none);
    }
    let mut sets: Vec<String> = match launched {
        Some(record) => copy_strings(&record.node_sets),
        None => Vec::new(),
    };
    let ghost run_wide = texts(sets@);
    assert(launched is None ==> run_wide =~= Seq::<Seq<char>>::empty());
    match &labels.persona {
        Some(persona) => {
            let mut set: String = String::from_str("members.");
            set.append(WORKER_MEMBER);
            set.append(".persona=");
            set.append(persona.as_str());
            sets.push(set);
            assert(texts(sets@) =~= run_wide + seq![persona_set(persona@)]);
        },
        None => {
            assert(texts(sets@) =~= run_wide + Seq::<Seq<char>>::empty());
        },
    }
    let ghost so_far = texts(sets@);
    match controls.overrides() {
        Ok(own) => {
            let mut own = own;
            let ghost settings = own@;
            sets.append(&mut own);
            assert(texts(sets@) =~= so_far + texts(settings));
            Ok(sets)
        },
        Err(why) => Err(Error::Invalid(why)),
    }
}

/// The sessions this executor opened, by the worktree each handed back.
///
/// A lifecycle node's first dispatch asks for a session and every later one names
/// the worktree that session opened, because a second session on the same branch
/// would reclaim the first. The token is not on that request, so the executor that
/// opened the session is what remembers which one.
pub struct Opened {
    sessions: NameMap<String>,
}

impl Opened {
    #[verifier::type_invariant]
    spec fn kept(self) -> bool {
        self.sessions.wf()
    }

    /// The token of each session, by the worktree it opened.
    pub closed spec fn tokens(&self) -> Map<Seq<char>, Seq<char>> {
        label_map(self.sessions)
    }

    /// Nothing opened yet.
    pub fn new() -> (r: Self)
        ensures
            r.tokens() == Map::<Seq<char>, Seq<char>>::empty(),
    {
        let sessions: NameMap<String> = NameMap::new();
        assert(label_map(sessions) =~= Map::<Seq<char>, Seq<char>>::empty());
        Opened { sessions }
    }

    /// Remember the session a worktree was opened by.
    pub fn remember_worktree(&mut self, session: &Session)
        ensures
            final(self).tokens() == old(self).tokens().insert(session.worktree@, session.token@),
    {
        proof {
            use_type_invariant(&*self);
        }
        let ghost before = label_map(self.sessions);
        let mut sessions: NameMap<String> = NameMap::new();
        std::mem::swap(&mut sessions, &mut self.sessions);
        sessions.insert(session.worktree.clone(), session.token.clone());
        assert(label_map(sessions) =~= before.insert(session.worktree@, session.token@));
        self.sessions = sessions;
    }

    /// The session opened on a worktree. A path nothing here opened answers nothing,
    /// which is every direct node's dispatch.
    pub fn session_of_worktree(&self, worktree: &str) -> (r: Option<String>)
        ensures
            text_of(r) == (if self.tokens().contains_key(worktree@) {
                Some(self.tokens()[worktree@])
            } else {
                None
            }),
    {
        proof {
            use_type_invariant(self);
        }
        match self.sessions.get(worktree) {
            Some(token) => Some(token.clone()),
            None => None,
        }
    }
}

/// Whether a dispatch in a workspace runs in a session: one it opens, or one already
/// opened on the worktree it names.
pub open spec fn in_session(workspace: WorkspaceSpec, tokens: Map<Seq<char>, Seq<char>>) -> bool {
    match workspace {
        WorkspaceSpec::VcsSession(_) => true,
        WorkspaceSpec::Path(path) => tokens.contains_key(path@),
    }
}

/// The names a dispatch's own environment will hold.
pub open spec fn own_names(in_session: bool) -> Seq<Seq<char>> {
    let names = seq![RUN_ID_ENV@, RUNS_DIR_ENV@, ASKER_ENV@, NODE_SCRATCH_DIR_ENV@];
    if in_session {
        names.push(SESSION_ENV@)
    } else {
        names
    }
}

/// The names of the variables a dispatch of a run in `workspace` will hold, known
/// before any of their values are.
///
/// What the environment hook's check is told is present by name: the scratch
/// directory is made, and a session's token exists, only once the launch goes ahead.
pub fn own_dispatch_variables(workspace: &WorkspaceSpec, opened: &Opened) -> (r: Vec<String>)
    ensures
        texts(r@) == own_names(in_session(*workspace, opened.tokens())),
{
    let mut names: Vec<String> = Vec::new();
    names.push(RUN_ID_ENV.to_owned());
    names.push(RUNS_DIR_ENV.to_owned());
    names.push(ASKER_ENV.to_owned());
    names.push(NODE_SCRATCH_DIR_ENV.to_owned());
    let inside: bool = match workspace {
        WorkspaceSpec::VcsSession(_) => true,
        WorkspaceSpec::Path(path) => opened.session_of_worktree(path.as_str()).is_some(),
    };
    if inside {
        names.push(SESSION_ENV.to_owned());
    }
    assert(texts(names@) =~= own_names(inside));
    names
}

/// What every dispatch of this executor holds in its own environment.
pub open spec fn own_env(
    run: Option<Seq<char>>,
    root: Seq<char>,
    session: Option<Seq<char>>,
    scratch: Seq<char>,
) -> Seq<(Seq<char>, Seq<char>)> {
    let named = match run {
        Some(run) => seq![(RUN_ID_ENV@, run)],
        None => Seq::empty(),
    };
    let rooted = named.push((RUNS_DIR_ENV@, root));
    let addressed = match session {
        Some(token) => rooted.push((SESSION_ENV@, token)),
        None => rooted,
    };
    addressed.push((ASKER_ENV@, scratch)).push((NODE_SCRATCH_DIR_ENV@, scratch))
}

/// Compose what every dispatch of this executor holds in its own environment.
///
/// The run id is what the operator addresses a manager by, and a dispatch outside a
/// run carries none. The runs root is absolute, so that a dispatch reads this run's
/// store from wherever it is working. The session is the one whose worktree the
/// dispatch runs in. The asker is the scratch directory's own path: what has to be
/// true of it is that no other dispatch carries it, and that is what the directory
/// already is.
pub fn prepare_dispatch_env(labels: &Labels, root: &str, session: Option<&str>, scratch: &str) -> (r:
    Vec<(String, String)>)
    ensures
        pairs_of(r@) == own_env(
            labels@.run_id,
            root@,
            match session {
                Some(token) => Some(token@),
                None => None,
            },
            scratch@,
        ),
{
    let mut env: Vec<(String, String)> = Vec::new();
    match &labels.run_id {
        Some(run) => {
            env.push((RUN_ID_ENV.to_owned(), run.clone()));
        },
        None => {},
    }
    env.push((RUNS_DIR_ENV.to_owned(), root.to_owned()));
    match session {
        Some(token) => {
            env.push((SESSION_ENV.to_owned(), token.to_owned()));
        },
        None => {},
    }
    env.push((ASKER_ENV.to_owned(), scratch.to_owned()));
    env.push((NODE_SCRATCH_DIR_ENV.to_owned(), scratch.to_owned()));
    assert(pairs_of(env@) =~= own_env(
        labels@.run_id,
        root@,
        match session {
            Some(token) => Some(token@),
            None => None,
        },
        scratch@,
    ));
    env
}

/// Where a dispatch's scratch directory is made: under the run's own directory, so a
/// run's scratch is thrown away with the run, or under the host's temporary one.
pub open spec fn scratch_base(run: Option<Seq<char>>, root: Seq<char>, temporary: Seq<char>) -> Seq<
    char,
> {
    match run {
        Some(run) => joined(joined(root, run), "scratch"@),
        None => joined(temporary, "onepipeline-scratch"@),
    }
}

/// The directory one number is tried under.
pub open spec fn scratch_path(base: Seq<char>, pid: u32, minted: u64) -> Seq<char> {
    joined(base, dec(pid as nat) + "-"@ + dec(minted as nat))
}

/// What creating a directory came to.
#[derive(Debug, PartialEq, Eq)]
pub enum Created {
    /// It was made.
    Made,
    /// One is already there.
    AlreadyThere,
    /// It could not be, and what the filesystem said.
    Failed(String),
}

/// What is done next about a scratch directory.
#[derive(Debug, PartialEq, Eq)]
pub enum ScratchStep {
    /// This one is the dispatch's own.
    Take(String),
    /// Try the next number.
    Again,
    /// The dispatch is refused.
    Refuse(Error),
}

/// A dispatch's own scratch directory, while it is being made.
///
/// Uniqueness is the directory's creation, not its name: creating one that is
/// already there fails, which a name minted from a pid and a counter would not.
#[derive(Debug)]
pub struct NodeScratch {
    /// Where it is made.
    pub base: String,
    /// The process making it.
    pub pid: u32,
    /// How many numbers have been tried.
    pub tried: u64,
}

impl NodeScratch {
    /// Begin making one for a dispatch.
    pub fn make_node_scratch_dir(labels: &Labels, root: &str, temporary: &str, pid: u32) -> (r: Self)
        ensures
            r.base@ == scratch_base(labels@.run_id, root@, temporary@),
            r.pid == pid,
            r.tried == 0,
    {
        let base: String = match &labels.run_id {
            Some(run) => {
                let dir = join_path(root, run.as_str());
                join_path(dir.as_str(), "scratch")
            },
            None => join_path(temporary, "onepipeline-scratch"),
        };
        NodeScratch { base, pid, tried: 0 }
    }

    /// The directory to try under a number nobody has had, or nothing once every try
    /// is spent.
    pub fn next(&self, minted: u64) -> (r: Option<String>)
        ensures
            text_of(r) == (if self.tried < TRIES {
                Some(scratch_path(self.base@, self.pid, minted))
            } else {
                None
            }),
    {
        if self.tried >= TRIES {
            return None;
        }
        let mut name: String = text::dec_text(self.pid as u64);
        name.append("-");
        text::push_dec(&mut name, minted);
        Some(join_path(self.base.as_str(), name.as_str()))
    }

    /// What creating a directory came to, and so what is done next.
    pub fn came(&mut self, at: &str, created: Created) -> (r: ScratchStep)
        requires
            old(self).tried < TRIES,
        ensures
            final(self).base == old(self).base,
            final(self).pid == old(self).pid,
            final(self).tried == old(self).tried + 1,
            match created {
                Created::Made => r matches ScratchStep::Take(made) && made@ == at@,
                Created::AlreadyThere => r == ScratchStep::Again,
                Created::Failed(source) => r matches ScratchStep::Refuse(why)
                    && why matches Error::Ledger { path, source: said } && path@ == at@ && said
                    == source,
            },
    {
        self.tried = self.tried + 1;
        match created {
            Created::Made => ScratchStep::Take(at.to_owned()),
            Created::AlreadyThere => ScratchStep::Again,
            Created::Failed(source) => ScratchStep::Refuse(
                Error::Ledger { path: at.to_owned(), source },
            ),
        }
    }

    /// The refusal once every try is spent.
    pub fn spent(&self) -> (r: Error)
        ensures
            r matches Error::Ledger { path, source } && path@ == self.base@ && source@
                == "no scratch directory under "@ + self.base@ + " could be created"@,
    {
        let mut source: String = String::from_str("no scratch directory under ");
        source.append(self.base.as_str());
        source.append(" could be created");
        Error::Ledger { path: self.base.clone(), source }
    }
}

/// A dispatch that has been asked for.
pub struct Requested {
    /// What was asked.
    pub request: DispatchRequest,
}

impl Requested {
    /// The launch record to read: that of the run this dispatch belongs to.
    ///
    /// A dispatch built outside a run has no launch to read, and takes the defaults
    /// rather than being refused, because nothing about it is wrong.
    pub fn launched_with(&self, root: &str) -> (r: Option<String>)
        ensures
            text_of(r) == (match self.request.labels@.run_id {
                Some(run) => Some(joined(joined(root@, run), LAUNCH_RECORD@)),
                None => None,
            }),
    {
        match &self.request.labels.run_id {
            Some(run) => {
                let paths = RunPaths::under(root, run.as_str());
                Some(paths.launch())
            },
            None => None,
        }
    }

    /// The launch record has been read, where there is one: compose its overrides.
    pub fn composed(self, launched: Option<LaunchRecord>) -> (r: Result<Composed, Error>)
        ensures
            match r {
                Ok(composed) => {
                    &&& self.request.labels@.persona == Some(PR_AUTHOR_PERSONA@)
                        || self.request.controls.wf()
                    &&& composed.request == self.request
                    &&& composed.launched == launched
                    &&& texts(composed.sets@) == sets_of(
                        launched,
                        self.request.labels@,
                        self.request.controls,
                    )
                },
                Err(why) => {
                    &&& self.request.labels@.persona != Some(PR_AUTHOR_PERSONA@)
                    &&& !self.request.controls.wf()
                    &&& why matches Error::Invalid(why) && why@ == crate::controls::NO_TURN@
                },
            },
    {
        let sets = node_sets(launched.as_ref(), &self.request.labels, &self.request.controls);
        match sets {
            Ok(sets) => Ok(Composed { request: self.request, launched, sets }),
            Err(why) => Err(why),
        }
    }
}

/// What the environment hook of a run is asked about a dispatch.
#[derive(Debug)]
pub struct HookAsk {
    /// The run.
    pub run: String,
    /// The node.
    pub node: String,
    /// The variables the dispatch will hold whatever the hook says.
    pub own: Vec<String>,
}

/// A dispatch whose overrides are composed.
pub struct Composed {
    /// What was asked.
    pub request: DispatchRequest,
    /// The launch record of its run.
    pub launched: Option<LaunchRecord>,
    /// The overrides its graph launch carries.
    pub sets: Vec<String>,
}

impl Composed {
    /// What the run's environment hook is asked. A dispatch outside a run, or of no
    /// node, is asked about nothing.
    pub fn hook(&self, opened: &Opened) -> (r: Option<HookAsk>)
        ensures
            match r {
                Some(ask) => {
                    &&& self.launched is Some
                    &&& self.request.labels@.run_id == Some(ask.run@)
                    &&& self.request.labels@.node == Some(ask.node@)
                    &&& texts(ask.own@) == own_names(
                        in_session(self.request.workspace, opened.tokens()),
                    )
                },
                None => self.launched is None || self.request.labels.run_id is None
                    || self.request.labels.node is None,
            },
    {
        match (&self.launched, &self.request.labels.run_id, &self.request.labels.node) {
            (Some(_), Some(run), Some(node)) => Some(
                HookAsk {
                    run: run.clone(),
                    node: node.clone(),
                    own: own_dispatch_variables(&self.request.workspace, opened),
                },
            ),
            _ => None,
        }
    }

    /// The hook has answered with the pairs it adds: where the dispatch runs.
    ///
    /// A directory is where the dispatch runs as it stands. A session is opened
    /// first, under the labels the engine decides.
    pub fn place(self, added: Vec<(String, String)>, opened: &Opened) -> (r: Placing)
        requires
            self.request.workspace matches WorkspaceSpec::VcsSession(asked) ==> asked.labels.wf(),
        ensures
            match self.request.workspace {
                WorkspaceSpec::Path(path) => r matches Placing::In(placed) && {
                    &&& placed.carried.is_of(self, added)
                    &&& placed.dir == path
                    &&& placed.session is None
                    &&& text_of(placed.token) == (if opened.tokens().contains_key(path@) {
                        Some(opened.tokens()[path@])
                    } else {
                        None
                    })
                },
                WorkspaceSpec::VcsSession(asked) => r matches Placing::Open(opening) && {
                    &&& opening.carried.is_of(self, added)
                    &&& opening.wanted.labels.wf()
                    &&& opening.wanted == (SessionRequest { labels: opening.wanted.labels, ..asked })
                    &&& label_map(opening.wanted.labels) == stamped(
                        label_map(asked.labels),
                        self.request.labels@,
                        launcher_of(self.launched),
                    )
                },
            },
    {
        let Composed { request, launched, sets } = self;
        let DispatchRequest { graph, task, labels, controls: _, workspace, cancel, attempt } =
            request;
        match workspace {
            WorkspaceSpec::Path(path) => {
                let token = opened.session_of_worktree(path.as_str());
                let carried = Carried {
                    graph,
                    task,
                    labels,
                    cancel,
                    attempt,
                    launched,
                    sets,
                    env: added,
                };
                Placing::In(Placed { carried, dir: path, session: None, token })
            },
            WorkspaceSpec::VcsSession(asked) => {
                let SessionRequest {
                    repo,
                    branch,
                    base,
                    execution_checkout,
                    pool,
                    overflow,
                    labels: asked_labels,
                } = asked;
                let stamped = session_labels(asked_labels, &labels, launched.as_ref());
                let carried = Carried {
                    graph,
                    task,
                    labels,
                    cancel,
                    attempt,
                    launched,
                    sets,
                    env: added,
                };
                Placing::Open(
                    Opening {
                        carried,
                        wanted: SessionRequest {
                            repo,
                            branch,
                            base,
                            execution_checkout,
                            pool,
                            overflow,
                            labels: stamped,
                        },
                    },
                )
            },
        }
    }
}

/// What a dispatch carries from stage to stage.
pub struct Carried {
    /// The node-scope agent-graph config.
    pub graph: String,
    /// The task prose.
    pub task: String,
    /// Where in the run this dispatch sits.
    pub labels: Labels,
    /// Raised to stop the dispatch cooperatively.
    pub cancel: CancellationToken,
    /// Which attempt of the node this dispatch is.
    pub attempt: u32,
    /// The launch record of its run.
    pub launched: Option<LaunchRecord>,
    /// The overrides its graph launch carries.
    pub sets: Vec<String>,
    /// The environment composed so far; of two pairs with one name the later holds.
    pub env: Vec<(String, String)>,
}

impl Carried {
    /// This is what a composed dispatch carries on, with the hook's pairs first.
    pub open spec fn is_of(&self, composed: Composed, added: Vec<(String, String)>) -> bool {
        *self == (Carried {
            graph: composed.request.graph,
            task: composed.request.task,
            labels: composed.request.labels,
            cancel: composed.request.cancel,
            attempt: composed.request.attempt,
            launched: composed.launched,
            sets: composed.sets,
            env: added,
        })
    }
}

/// Where a dispatch runs, or the session it has to open to say.
pub enum Placing {
    /// It runs here.
    In(Placed),
    /// It opens this session first.
    Open(Opening),
}

/// A dispatch that opens a session.
pub struct Opening {
    /// What it carries.
    pub carried: Carried,
    /// The session to open.
    pub wanted: SessionRequest,
}

impl Opening {
    /// The session is open: the dispatch runs in its worktree, and every later one
    /// that names that worktree is in the same session.
    pub fn opened(self, session: Session, opened: &mut Opened) -> (r: Placed)
        ensures
            r.carried == self.carried,
            r.dir@ == session.worktree@,
            r.session == Some(session),
            text_of(r.token) == Some(session.token@),
            final(opened).tokens() == old(opened).tokens().insert(
                session.worktree@,
                session.token@,
            ),
    {
        opened.remember_worktree(&session);
        Placed {
            carried: self.carried,
            dir: session.worktree.clone(),
            token: Some(session.token.clone()),
            session: Some(session),
        }
    }
}

/// A dispatch that has somewhere to run.
pub struct Placed {
    /// What it carries.
    pub carried: Carried,
    /// Where it runs.
    pub dir: String,
    /// The session it opened.
    pub session: Option<Session>,
    /// The session whose worktree it runs in.
    pub token: Option<String>,
}

impl Placed {
    /// The runs root is absolute and the scratch directory is made: the dispatch's
    /// own pairs stand over the hook's.
    pub fn equip(self, root: &str, scratch: &str) -> (r: Equipped)
        ensures
            r.carried == (Carried { env: r.carried.env, ..self.carried }),
            pairs_of(r.carried.env@) == pairs_of(self.carried.env@) + own_env(
                self.carried.labels@.run_id,
                root@,
                text_of(self.token),
                scratch@,
            ),
            r.dir == self.dir,
            r.session == self.session,
    {
        let mut own = prepare_dispatch_env(
            &self.carried.labels,
            root,
            borrowed(&self.token),
            scratch,
        );
        let ghost added = own@;
        let mut carried = self.carried;
        let ghost before = carried.env@;
        carried.env.append(&mut own);
        assert(pairs_of(carried.env@) =~= pairs_of(before) + pairs_of(added));
        Equipped { carried, dir: self.dir, session: self.session }
    }
}

/// The value a name holds in an environment: the last written for it.
pub open spec fn held(env: Seq<(Seq<char>, Seq<char>)>, name: Seq<char>) -> Option<Seq<char>>
    decreases env.len(),
{
    if env.len() == 0 {
        None
    } else if env.last().0 == name {
        Some(env.last().1)
    } else {
        held(env.drop_last(), name)
    }
}

fn held_in(env: &Vec<(String, String)>, name: &str) -> (r: Option<String>)
    ensures
        text_of(r) == held(pairs_of(env@), name@),
{
    let mut i: usize = env.len();
    assert(pairs_of(env@) =~= pairs_of(env@).take(i as int));
    while i > 0
        invariant
            i <= env@.len(),
            held(pairs_of(env@), name@) == held(pairs_of(env@).take(i as int), name@),
        decreases i,
    {
        let ghost taken = pairs_of(env@).take(i as int);
        assert(taken.last() == pairs_of(env@)[i - 1]);
        assert(taken.drop_last() =~= pairs_of(env@).take(i - 1));
        if text::same(env[i - 1].0.as_str(), name) {
            return Some(env[i - 1].1.clone());
        }
        i = i - 1;
    }
    None
}

/// Where the history labels a stamp is laid over come from.
#[derive(Debug, PartialEq, Eq)]
pub enum Inherited {
    /// Nowhere: a dispatch outside a run is not stamped.
    Unstamped,
    /// The dispatch's own environment.
    Held(String),
    /// This process's own environment.
    FromProcess,
}

/// What a launch is stamped as.
#[derive(Debug, PartialEq, Eq)]
pub enum StampedAs {
    /// The drafting dispatch of a node.
    PrAuthor {
        /// The node.
        node: String,
        /// Which attempt.
        attempt: u32,
    },
    /// A node's own work.
    Node {
        /// The node.
        node: String,
        /// The step of it.
        step: Option<String>,
        /// Which attempt.
        attempt: u32,
    },
}

/// What a launch's history labels say.
#[derive(Debug, PartialEq, Eq)]
pub struct Stamp {
    /// The run.
    pub run: String,
    /// The project the run belongs to, where its launch named one.
    pub project: Option<String>,
    /// What was launched.
    pub launched: StampedAs,
}

/// The refusal of a dispatch inside a run that names no node.
pub open spec fn unstampable(run: Seq<char>) -> Seq<char> {
    "a dispatch inside run '"@ + run + "' names no node, so it cannot be stamped"@
}

/// What a dispatch of a node is stamped as.
pub open spec fn stamps(stamp: StampedAs, node: Seq<char>, labels: LabelsModel, attempt: u32) -> bool {
    if labels.persona == Some(PR_AUTHOR_PERSONA@) {
        stamp matches StampedAs::PrAuthor { node: named, attempt: nth } && named@ == node && nth
            == attempt
    } else {
        stamp matches StampedAs::Node { node: named, step, attempt: nth } && named@ == node
            && text_of(step) == labels.step && nth == attempt
    }
}

/// A dispatch whose own environment is composed.
pub struct Equipped {
    /// What it carries.
    pub carried: Carried,
    /// Where it runs.
    pub dir: String,
    /// The session it opened.
    pub session: Option<Session>,
}

impl Equipped {
    /// Whether the dispatch belongs to a run that was launched.
    pub open spec fn in_run(&self) -> bool {
        self.carried.launched is Some && self.carried.labels.run_id is Some
    }

    /// Where the history labels its stamp is laid over come from: its own
    /// environment where that names them, so that what the hook added is kept.
    pub fn inherited(&self) -> (r: Inherited)
        ensures
            match r {
                Inherited::Unstamped => !self.in_run(),
                Inherited::Held(value) => self.in_run() && held(
                    pairs_of(self.carried.env@),
                    LABELS_ENV@,
                ) == Some(value@),
                Inherited::FromProcess => self.in_run() && held(
                    pairs_of(self.carried.env@),
                    LABELS_ENV@,
                ) is None,
            },
    {
        if self.carried.launched.is_none() || self.carried.labels.run_id.is_none() {
            return Inherited::Unstamped;
        }
        match held_in(&self.carried.env, LABELS_ENV) {
            Some(value) => Inherited::Held(value),
            None => Inherited::FromProcess,
        }
    }

    /// The stamp of this dispatch: none outside a run, and none to be had inside one
    /// for a dispatch that names no node. `project` is the one its launch named, or
    /// nothing.
    pub fn stamp(&self, project: &str) -> (r: Result<Option<Stamp>, Error>)
        ensures
            match r {
                Ok(None) => !self.in_run(),
                Ok(Some(stamp)) => {
                    &&& self.in_run()
                    &&& self.carried.labels@.run_id == Some(stamp.run@)
                    &&& text_of(stamp.project) == (if project@.len() > 0 {
                        Some(project@)
                    } else {
                        None
                    })
                    &&& self.carried.labels@.node matches Some(node) && stamps(
                        stamp.launched,
                        node,
                        self.carried.labels@,
                        self.carried.attempt,
                    )
                },
                Err(why) => {
                    &&& self.in_run()
                    &&& self.carried.labels.node is None
                    &&& why matches Error::Invalid(why) && self.carried.labels@.run_id matches Some(
                        run,
                    ) && why@ == unstampable(run)
                },
            },
    {
        if self.carried.launched.is_none() {
            return Ok(None);
        }
        let labels = &self.carried.labels;
        match &labels.run_id {
            None => Ok(None),
            Some(run) => match &labels.node {
                None => {
                    let mut why: String = String::from_str("a dispatch inside run '");
                    why.append(run.as_str());
                    why.append("' names no node, so it cannot be stamped");
                    Err(Error::Invalid(why))
                },
                Some(node) => {
                    let launched = if text::is_text(&labels.persona, PR_AUTHOR_PERSONA) {
                        StampedAs::PrAuthor { node: node.clone(), attempt: self.carried.attempt }
                    } else {
                        StampedAs::Node {
                            node: node.clone(),
                            step: copy_text(&labels.step),
                            attempt: self.carried.attempt,
                        }
                    };
                    proof {
                        reveal_strlit("");
                        assert(project@.len() == 0 ==> project@ =~= ""@);
                    }
                    let named: Option<String> = if text::same(project, "") {
                        None
                    } else {
                        Some(project.to_owned())
                    };
                    Ok(Some(Stamp { run: run.clone(), project: named, launched }))
                },
            },
        }
    }

    /// The stamp's pairs are known, none for a dispatch that has no stamp: the graph
    /// launch, and what is kept of the dispatch while it runs.
    pub fn ready(self, overlay: Vec<(String, String)>) -> (r: (GraphLaunch, Pending))
        ensures
            r.0.graph == self.carried.graph,
            r.0.task == self.carried.task,
            r.0.dir == self.dir,
            r.0.labels@ == self.carried.labels@,
            r.0.env@ == self.carried.env@ + overlay@,
            r.0.sets == self.carried.sets,
            r.0.filter == (match self.carried.launched {
                Some(record) => record.filters.agentgraph,
                None => None,
            }),
            r.1.cancel == self.carried.cancel,
            r.1.labels == self.carried.labels,
            r.1.session == self.session,
    {
        let Carried { graph, task, labels, cancel, attempt: _, launched, sets, env } =
            self.carried;
        let mut env = env;
        let mut overlay = overlay;
        env.append(&mut overlay);
        let filter: Option<EventFilter> = match launched {
            Some(record) => record.filters.agentgraph,
            None => None,
        };
        let launch = GraphLaunch {
            graph,
            task,
            dir: self.dir,
            labels: labels.clone(),
            env,
            sets,
            filter,
        };
        (launch, Pending { cancel, labels, session: self.session })
    }
}

/// One graph launch: in a process of its own, its output relayed, its ending
/// announced.
pub struct GraphLaunch {
    /// The agent-graph config.
    pub graph: String,
    /// The task prose.
    pub task: String,
    /// Where it runs.
    pub dir: String,
    /// What its events are stamped with.
    pub labels: Labels,
    /// The environment it runs in, over this process's own.
    pub env: Vec<(String, String)>,
    /// The overrides applied to the config.
    pub sets: Vec<String>,
    /// What of its events the merged store keeps.
    pub filter: Option<EventFilter>,
}

/// The entry a dispatch records in its run's registry.
#[derive(Debug, PartialEq, Eq)]
pub struct Registering {
    /// The run.
    pub run: String,
    /// The node.
    pub node: String,
    /// The process the work is in.
    pub pid: u32,
}

/// A dispatch whose graph is started and whose entry is not yet recorded.
pub struct Pending {
    /// Raised to stop the dispatch cooperatively.
    pub cancel: CancellationToken,
    /// Where in the run this dispatch sits.
    pub labels: Labels,
    /// The session it opened.
    pub session: Option<Session>,
}

/// What became of a started graph.
pub enum Started {
    /// It runs.
    Running(LocalDispatch),
    /// Its run could not record it: the graph is cancelled and waited for, and the
    /// dispatch is refused.
    Abandoned(Error),
}

impl Pending {
    /// The entry to record.
    ///
    /// `process` is the graph run's own, where the graph is a process of its own; a
    /// graph running in this process is recorded as this process. A dispatch outside
    /// a run records nothing, and so does one whose node the labels do not name.
    pub fn register_dispatch(&self, process: Option<u32>, own: u32) -> (r: Option<Registering>)
        ensures
            match r {
                Some(entry) => {
                    &&& self.labels@.run_id == Some(entry.run@)
                    &&& self.labels@.node == Some(entry.node@)
                    &&& entry.pid == (match process {
                        Some(pid) => pid,
                        None => own,
                    })
                },
                None => self.labels.run_id is None || self.labels.node is None,
            },
    {
        match (&self.labels.run_id, &self.labels.node) {
            (Some(run), Some(node)) => {
                let pid: u32 = match process {
                    Some(pid) => pid,
                    None => own,
                };
                Some(Registering { run: run.clone(), node: node.clone(), pid })
            },
            _ => None,
        }
    }

    /// What recording the entry came to.
    pub fn registered(self, claim: Result<Option<DispatchClaim>, Error>) -> (r: Started)
        ensures
            match claim {
                Ok(claim) => r == Started::Running(
                    LocalDispatch {
                        cancel: self.cancel,
                        labels: self.labels,
                        session: self.session,
                        claim,
                    },
                ),
                Err(refusal) => r == Started::Abandoned(refusal),
            },
    {
        match claim {
            Ok(claim) => Started::Running(
                LocalDispatch {
                    cancel: self.cancel,
                    labels: self.labels,
                    session: self.session,
                    claim,
                },
            ),
            Err(refusal) => Started::Abandoned(refusal),
        }
    }
}

/// One dispatch running on this machine.
pub struct LocalDispatch {
    /// Raised to stop the dispatch cooperatively.
    pub cancel: CancellationToken,
    /// Where in the run this dispatch sits.
    pub labels: Labels,
    /// The session it opened.
    pub session: Option<Session>,
    /// This dispatch's entry in the run's registry, held for exactly as long as the
    /// dispatch is.
    pub claim: Option<DispatchClaim>,
}

impl DispatchHandle for LocalDispatch {
    /// The opened session is version control's own contribution to the merged
    /// stream: without it a lifecycle node's branch would appear in the ledger with
    /// nothing saying where it came from.
    fn events(&self, opened: Option<Envelope>, relayed: Vec<Envelope>) -> (r: Vec<Envelope>)
        ensures
            r@ == (match (self.session, opened) {
                (Some(_), Some(opened)) => seq![opened] + relayed@,
                _ => relayed@,
            }),
    {
        let mut out: Vec<Envelope> = Vec::new();
        if self.session.is_some() {
            match opened {
                Some(opened) => {
                    out.push(opened);
                },
                None => {},
            }
        }
        let mut relayed = relayed;
        out.append(&mut relayed);
        out
    }

    fn wait(&self, ended: GraphEnd) -> (r: DispatchOutcome)
        ensures
            r.succeeded == ended.succeeded,
            r.detail@ == text::trim(ended.stderr@),
            text_of(r.session) == (match self.session {
                Some(session) => Some(session.token@),
                None => None,
            }),
            text_of(r.branch) == (match self.session {
                Some(session) => Some(session.branch@),
                None => None,
            }),
    {
        let (session, branch): (Option<String>, Option<String>) = match &self.session {
            Some(session) => (Some(session.token.clone()), Some(session.branch.clone())),
            None => (None, None),
        };
        DispatchOutcome {
            succeeded: ended.succeeded,
            detail: text::trimmed(ended.stderr.as_str()),
            session,
            branch,
        }
    }

    /// Both modes raise the cooperative signal, because both are the caller changing
    /// its mind. `Kill` additionally tears the graph run down, which a cooperative
    /// stop deliberately does not: the live turn is asked to commit and end first.
    fn cancel(&self, mode: CancelMode) -> (r: bool)
        ensures
            r == (mode == CancelMode::Kill),
    {
        self.cancel.cancel();
        match mode {
            CancelMode::Kill => true,
            CancelMode::Cooperative => false,
        }
    }
}

/// The drafting dispatch takes the graph the launch named as it was written.
pub proof fn law_the_drafting_dispatch_composes_nothing(
    launched: Option<LaunchRecord>,
    labels: LabelsModel,
    controls: NodeControls,
)
    requires
        labels.persona == Some(PR_AUTHOR_PERSONA@),
    ensures
        sets_of(launched, labels, controls).len() == 0,
{
}

/// A node's own settings apply after the run-wide ones, whatever those are.
pub proof fn law_a_nodes_own_settings_come_last(
    launched: Option<LaunchRecord>,
    labels: LabelsModel,
    controls: NodeControls,
)
    requires
        labels.persona != Some(PR_AUTHOR_PERSONA@),
    ensures
        controls.settings().is_suffix_of(sets_of(launched, labels, controls)),
        launched matches Some(record) ==> texts(record.node_sets@).is_prefix_of(
            sets_of(launched, labels, controls),
        ),
{
    let sets = sets_of(launched, labels, controls);
    let own = controls.settings();
    assert(own =~= sets.subrange(sets.len() - own.len(), sets.len() as int));
    if let Some(record) = launched {
        let run_wide = texts(record.node_sets@);
        assert(run_wide =~= sets.subrange(0, run_wide.len() as int));
    }
}

/// A session names the launcher its launch had and no other, and keeps every label
/// that is not the engine's to decide.
pub proof fn law_a_session_names_no_launcher_its_launch_had_not(
    asked: Map<Seq<char>, Seq<char>>,
    labels: LabelsModel,
    launched: Option<LaunchRecord>,
    key: Seq<char>,
)
    ensures
        ({
            let stamped = stamped(asked, labels, launcher_of(launched));
            let launcher = launcher_of(launched);
            &&& stamped.contains_key(SESSION_LAUNCHER_LABEL@) <==> launcher is Some
            &&& launcher matches Some(session) ==> stamped[SESSION_LAUNCHER_LABEL@] == session
            &&& key != SESSION_RUN_LABEL@ && key != SESSION_NODE_LABEL@ && key
                != SESSION_LAUNCHER_LABEL@ ==> (stamped.contains_key(key) <==> asked.contains_key(
                key,
            )) && (asked.contains_key(key) ==> stamped[key] == asked[key])
        }),
{
}

/// The environment hook is told of exactly the variables the dispatch will hold: a
/// name is among those it is told of where the dispatch's own pairs set it, and
/// nowhere else.
pub proof fn law_the_hook_is_told_every_variable(
    run: Seq<char>,
    root: Seq<char>,
    session: Option<Seq<char>>,
    scratch: Seq<char>,
    name: Seq<char>,
)
    ensures
        own_names(session is Some).contains(name) <==> held(
            own_env(Some(run), root, session, scratch),
            name,
        ) is Some,
{
    let env = own_env(Some(run), root, session, scratch);
    lemma_held(env, name);
    let names = own_names(session is Some);
    if session is Some {
        assert(names =~= seq![
            RUN_ID_ENV@,
            RUNS_DIR_ENV@,
            ASKER_ENV@,
            NODE_SCRATCH_DIR_ENV@,
            SESSION_ENV@,
        ]);
        assert(names[0] == env[0].0 && names[1] == env[1].0 && names[2] == env[3].0 && names[3]
            == env[4].0 && names[4] == env[2].0);
    } else {
        assert(names[0] == env[0].0 && names[1] == env[1].0 && names[2] == env[2].0 && names[3]
            == env[3].0);
    }
}

proof fn lemma_held(env: Seq<(Seq<char>, Seq<char>)>, name: Seq<char>)
    ensures
        held(env, name) is Some <==> exists|i: int| 0 <= i < env.len() && #[trigger] env[i].0 == name,
    decreases env.len(),
{
    if env.len() > 0 {
        lemma_held(env.drop_last(), name);
        if env.last().0 == name {
            assert(env[env.len() - 1].0 == name);
        } else if held(env.drop_last(), name) is Some {
            let i = choose|i: int|
                0 <= i < env.drop_last().len() && #[trigger] env.drop_last()[i].0 == name;
            assert(env[i].0 == name);
        } else {
            assert forall|i: int| 0 <= i < env.len() implies #[trigger] env[i].0 != name by {
                if i < env.len() - 1 {
                    assert(env.drop_last()[i].0 != name);
                }
            }
        }
    }
}

/// Two numbers are two directories: no two dispatches of a process are tried under
/// one, however many the process makes.
pub proof fn law_two_dispatches_share_no_directory(base: Seq<char>, pid: u32, a: u64, b: u64)
    requires
        a != b,
    ensures
        scratch_path(base, pid, a) != scratch_path(base, pid, b),
{
    let lead = dec(pid as nat) + "-"@;
    crate::ledger::lemma_dec_digits(pid as nat);
    let x = lead + dec(a as nat);
    let y = lead + dec(b as nat);
    if scratch_path(base, pid, a) == scratch_path(base, pid, b) {
        assert(x[0] == dec(pid as nat)[0]);
        assert(y[0] == dec(pid as nat)[0]);
        crate::ledger::lemma_joined_injective(base, x, y);
        assert(x.skip(lead.len() as int) =~= dec(a as nat));
        assert(y.skip(lead.len() as int) =~= dec(b as nat));
        text::lemma_dec_injective(a as nat, b as nat);
    }
}

/// How many dispatches a host has room for: its cores less what is busy, and none
/// where more is busy than there are cores.
pub fn slots_free(cores: u64, busy: u64) -> (r: u32)
    ensures
        r == (if busy >= cores {
            0
        } else if cores - busy > u32::MAX {
            u32::MAX as int
        } else {
            cores - busy
        }),
{
    let free: u64 = cores.saturating_sub(busy);
    if free > u32::MAX as u64 {
        u32::MAX
    } else {
        free as u32
    }
}

/// The bytes that the rest of an available-memory line says: a count of kibibytes.
pub open spec fn memory_said(rest: Seq<char>) -> Option<u64> {
    match text::leading_word(rest) {
        None => None,
        Some(word) => match text::read_u64(word) {
            Some(kib) => if kib * 1024 <= u64::MAX {
                Some((kib * 1024) as u64)
            } else {
                None
            },
            None => None,
        },
    }
}

/// The bytes available by a host's memory account, from a line of it on. The first
/// available-memory line answers, whatever it says.
pub open spec fn memory_in(lines: Seq<Seq<char>>, from: int) -> Option<u64>
    decreases lines.len() - from,
{
    if from < 0 || from >= lines.len() {
        None
    } else if text::starts_with(lines[from], MEM_AVAILABLE@) {
        memory_said(lines[from].subrange(MEM_AVAILABLE@.len() as int, lines[from].len() as int))
    } else {
        memory_in(lines, from + 1)
    }
}

/// A host's available memory in bytes, by its memory account, where that says.
pub fn available_memory(account: Option<&str>) -> (r: Option<u64>)
    ensures
        r == (match account {
            Some(account) => memory_in(text::lines(account@), 0),
            None => None,
        }),
{
    let lines = match account {
        Some(account) => text::lines_of(account),
        None => return None,
    };
    let ghost model = texts(lines@);
    let mut i: usize = 0;
    while i < lines.len()
        invariant
            account is Some,
            model == text::lines(account->0@),
            model == texts(lines@),
            i <= lines@.len(),
            memory_in(model, 0) == memory_in(model, i as int),
        decreases lines@.len() - i,
    {
        assert(model[i as int] == lines@[i as int]@);
        if text::begins(lines[i].as_str(), MEM_AVAILABLE) {
            let chars = text::chars_of(lines[i].as_str());
            let said = text::string_of(&chars, MEM_AVAILABLE.unicode_len(), chars.len());
            let word = match text::first_word(said.as_str()) {
                Some(word) => word,
                None => return None,
            };
            return match text::parse_u64(word.as_str()) {
                Some(kib) => kib.checked_mul(1024),
                None => None,
            };
        }
        i += 1;
    }
    None
}

/// The names a dispatch's surroundings go by.
pub proof fn law_the_names_of_a_dispatch()
    ensures
        SESSION_RUN_LABEL@ == "run"@,
        SESSION_NODE_LABEL@ == "node"@,
        SESSION_LAUNCHER_LABEL@ == "launcher"@,
        SESSION_ENV@ == "ONEPIPELINE_SESSION"@,
        ASKER_ENV@ == "ONEPIPELINE_ASKER"@,
        NODE_SCRATCH_DIR_ENV@ == "ONEPIPELINE_NODE_SCRATCH_DIR"@,
        LABELS_ENV@ == "ONEHARNESS_HISTORY_LABELS"@,
        LOAD1_ENV@ == "ONEPIPELINE_LOAD1"@,
        MEM_AVAILABLE@ == "MemAvailable:"@,
        TRIES == 4096,
{
    reveal_strlit("run");
    reveal_strlit("node");
    reveal_strlit("launcher");
    reveal_strlit("ONEPIPELINE_SESSION");
    reveal_strlit("ONEPIPELINE_ASKER");
    reveal_strlit("ONEPIPELINE_NODE_SCRATCH_DIR");
    reveal_strlit("ONEHARNESS_HISTORY_LABELS");
    reveal_strlit("ONEPIPELINE_LOAD1");
    reveal_strlit("MemAvailable:");
}

/// A launch is attributed where it names a session that is known.
pub proof fn law_which_launches_are_attributed(session: Seq<char>, launched: Option<LaunchRecord>)
    ensures
        is_attributed(session) <==> session.len() > 0 && session != "unknown"@,
        launched is None ==> launcher_of(launched) is None,
        launched matches Some(record) ==> (launcher_of(launched) is Some <==> record.session@.len()
            > 0 && record.session@ != "unknown"@),
        launched matches Some(record) ==> (launcher_of(launched) is Some ==> launcher_of(launched)
            == Some(record.session@)),
{
    reveal_strlit("unknown");
}

/// A session is labelled with the run and the node its dispatch belongs to and with nobody
/// else's: a label the dispatch has no value for is taken out, whatever was asked for.
pub proof fn law_a_session_is_labelled_with_its_own_run_and_node(
    asked: Map<Seq<char>, Seq<char>>,
    labels: LabelsModel,
    launcher: Option<Seq<char>>,
)
    ensures
        ({
            let on = stamped(asked, labels, launcher);
            &&& on.contains_key("run"@) <==> labels.run_id is Some
            &&& labels.run_id is Some ==> on["run"@] == labels.run_id->0
            &&& on.contains_key("node"@) <==> labels.node is Some
            &&& labels.node is Some ==> on["node"@] == labels.node->0
            &&& on.contains_key("launcher"@) <==> launcher is Some
            &&& launcher is Some ==> on["launcher"@] == launcher->0
        }),
{
    law_the_names_of_a_dispatch();
    reveal_strlit("run");
    reveal_strlit("node");
    reveal_strlit("launcher");
    assert("run"@.len() == 3 && "node"@.len() == 4 && "launcher"@.len() == 8);
}

/// What a dispatch's graph is launched with: nothing where it drafts, and otherwise the
/// run's own settings, then its persona for the member that does the work, then its turn
/// budget.
pub proof fn law_what_a_dispatch_is_launched_with(
    launched: Option<LaunchRecord>,
    labels: LabelsModel,
    controls: NodeControls,
)
    ensures
        ({
            let sets = sets_of(launched, labels, controls);
            let wide = match launched {
                Some(record) => record.node_sets@.len(),
                None => 0,
            };
            let named = if labels.persona is Some { 1nat } else { 0nat };
            let budget = if controls.max_turns is Some { 1nat } else { 0nat };
            &&& labels.persona == Some("pr-author"@) ==> sets.len() == 0
            &&& labels.persona != Some("pr-author"@) ==> {
                &&& sets.len() == wide + named + budget
                &&& launched matches Some(record) ==> forall|i: int|
                    0 <= i < record.node_sets@.len() ==> #[trigger] sets[i] == record.node_sets@[i]@
                &&& labels.persona is Some ==> sets[wide as int] == "members."@ + "worker"@
                    + ".persona="@ + labels.persona->0
                &&& controls.max_turns is Some ==> sets.last() == "members."@ + "worker"@
                    + ".max_turns="@ + dec(controls.max_turns->0 as nat)
            }
        }),
{
    reveal_strlit("pr-author");
    reveal_strlit("worker");
}

/// A dispatch runs in a session where it opens one, or names a worktree one was opened on.
pub proof fn law_which_dispatches_run_in_a_session(
    workspace: WorkspaceSpec,
    tokens: Map<Seq<char>, Seq<char>>,
)
    ensures
        workspace is VcsSession ==> in_session(workspace, tokens),
        workspace matches WorkspaceSpec::Path(path) ==> (in_session(workspace, tokens)
            <==> tokens.contains_key(path@)),
{
}

/// What a dispatch finds in its environment: the run it is addressed by, the root that
/// run's store lies under, the session of its worktree where it has one, and its own
/// scratch directory — which is also what it asks as.
pub proof fn law_what_a_dispatch_finds_in_its_environment(
    run: Option<Seq<char>>,
    root: Seq<char>,
    session: Option<Seq<char>>,
    scratch: Seq<char>,
)
    ensures
        ({
            let env = own_env(run, root, session, scratch);
            &&& held(env, "ONEPIPELINE_RUN_ID"@) == run
            &&& held(env, "ONEPIPELINE_RUNS_DIR"@) == Some(root)
            &&& held(env, "ONEPIPELINE_SESSION"@) == session
            &&& held(env, "ONEPIPELINE_ASKER"@) == Some(scratch)
            &&& held(env, "ONEPIPELINE_NODE_SCRATCH_DIR"@) == Some(scratch)
        }),
{
    reveal_strlit("ONEPIPELINE_RUN_ID");
    reveal_strlit("ONEPIPELINE_RUNS_DIR");
    reveal_strlit("ONEPIPELINE_SESSION");
    reveal_strlit("ONEPIPELINE_ASKER");
    reveal_strlit("ONEPIPELINE_NODE_SCRATCH_DIR");
    assert("ONEPIPELINE_RUN_ID"@.len() == 18 && "ONEPIPELINE_RUNS_DIR"@.len() == 20);
    assert("ONEPIPELINE_SESSION"@.len() == 19 && "ONEPIPELINE_ASKER"@.len() == 17);
    assert("ONEPIPELINE_NODE_SCRATCH_DIR"@.len() == 28);
    let none = Seq::<(Seq<char>, Seq<char>)>::empty();
    let named = match run {
        Some(run) => none.push((RUN_ID_ENV@, run)),
        None => none,
    };
    let rooted = named.push((RUNS_DIR_ENV@, root));
    let addressed = match session {
        Some(token) => rooted.push((SESSION_ENV@, token)),
        None => rooted,
    };
    let asking = addressed.push((ASKER_ENV@, scratch));
    let all = asking.push((NODE_SCRATCH_DIR_ENV@, scratch));
    assert(own_env(run, root, session, scratch) =~= all);
    assert forall|name: Seq<char>| #[trigger] held(all, name) == (if name
        == NODE_SCRATCH_DIR_ENV@ || name == ASKER_ENV@ {
        Some(scratch)
    } else if name == SESSION_ENV@ && session is Some {
        session
    } else if name == RUNS_DIR_ENV@ {
        Some(root)
    } else if name == RUN_ID_ENV@ && run is Some {
        run
    } else {
        None
    }) by {
        assert(all.drop_last() =~= asking);
        assert(asking.drop_last() =~= addressed);
        if session is Some {
            assert(addressed.drop_last() =~= rooted);
        }
        assert(rooted.drop_last() =~= named);
        if run is Some {
            assert(named.drop_last() =~= none);
        }
        assert(held(none, name) is None);
        assert(held(named, name) == (if name == RUN_ID_ENV@ && run is Some { run } else { None }));
        assert(held(rooted, name) == (if name == RUNS_DIR_ENV@ {
            Some(root)
        } else {
            held(named, name)
        }));
        assert(held(addressed, name) == (if name == SESSION_ENV@ && session is Some {
            session
        } else {
            held(rooted, name)
        }));
        assert(held(asking, name) == (if name == ASKER_ENV@ {
            Some(scratch)
        } else {
            held(addressed, name)
        }));
    }
}

/// Of two pairs with one name the later holds, and a name no pair has holds nothing.
pub proof fn law_the_later_pair_holds(env: Seq<(Seq<char>, Seq<char>)>, name: Seq<char>, i: int)
    ensures
        0 <= i < env.len() && env[i].0 == name && (forall|j: int|
            i < j < env.len() ==> (#[trigger] env[j]).0 != name) ==> held(env, name) == Some(
            env[i].1,
        ),
        (forall|j: int| 0 <= j < env.len() ==> (#[trigger] env[j]).0 != name) ==> held(env, name)
            is None,
    decreases env.len(),
{
    if env.len() > 0 {
        let before = env.drop_last();
        law_the_later_pair_holds(before, name, i);
        if 0 <= i < env.len() && env[i].0 == name && (forall|j: int|
            i < j < env.len() ==> (#[trigger] env[j]).0 != name) {
            if i < before.len() {
                assert(env[env.len() - 1].0 != name);
                assert(before[i] == env[i]);
                assert forall|j: int| i < j < before.len() implies (#[trigger] before[j]).0
                    != name by {
                    assert(env[j].0 != name);
                }
            }
        }
        if forall|j: int| 0 <= j < env.len() ==> (#[trigger] env[j]).0 != name {
            assert(env[env.len() - 1].0 != name);
            assert forall|j: int| 0 <= j < before.len() implies (#[trigger] before[j]).0 != name by {
                assert(env[j].0 != name);
            }
        }
    }
}

/// A run's scratch lies under the run's own directory, so that it goes with the run; that
/// of a dispatch outside a run lies under the host's temporary one. Each try is under the
/// process and the number it was made with.
pub proof fn law_where_scratch_lies(
    run: Option<Seq<char>>,
    root: Seq<char>,
    temporary: Seq<char>,
    pid: u32,
    minted: u64,
)
    ensures
        run matches Some(run) ==> scratch_path(scratch_base(Some(run), root, temporary), pid, minted)
            == joined(
            joined(joined(root, run), "scratch"@),
            dec(pid as nat) + "-"@ + dec(minted as nat),
        ),
        run is None ==> scratch_base(run, root, temporary) == joined(
            temporary,
            "onepipeline-scratch"@,
        ),
{
}

/// A dispatch is stamped as its node's drafting where it runs as the drafting persona, and
/// otherwise as the node's own work, at its step; either way with which attempt it is.
pub proof fn law_what_a_dispatch_is_stamped_as(
    stamp: StampedAs,
    node: Seq<char>,
    labels: LabelsModel,
    attempt: u32,
)
    requires
        stamps(stamp, node, labels, attempt),
    ensures
        stamp is PrAuthor <==> labels.persona == Some("pr-author"@),
        stamp matches StampedAs::PrAuthor { node: named, attempt: nth } ==> named@ == node && nth
            == attempt,
        stamp matches StampedAs::Node { node: named, step, attempt: nth } ==> named@ == node && nth
            == attempt && (step is None <==> labels.step is None) && (step is Some ==> labels.step
            == Some(step->0@)),
{
    reveal_strlit("pr-author");
}

/// A host's available memory is what the first line that says so says, in kibibytes, and
/// nothing where no line does.
pub proof fn law_available_memory_is_what_the_first_such_line_says(
    lines: Seq<Seq<char>>,
    from: int,
    at: int,
)
    requires
        0 <= from <= at <= lines.len(),
        forall|j: int|
            from <= j < at ==> !text::starts_with(#[trigger] lines[j], "MemAvailable:"@),
    ensures
        at == lines.len() ==> memory_in(lines, from) is None,
        at < lines.len() && text::starts_with(lines[at], "MemAvailable:"@) ==> memory_in(
            lines,
            from,
        ) == memory_said(lines[at].skip(13)),
    decreases at - from,
{
    reveal_strlit("MemAvailable:");
    if from < at {
        assert(!text::starts_with(lines[from], "MemAvailable:"@));
        law_available_memory_is_what_the_first_such_line_says(lines, from + 1, at);
    } else if at < lines.len() && text::starts_with(lines[at], "MemAvailable:"@) {
        assert(lines[at].skip(13) =~= lines[at].subrange(13, lines[at].len() as int));
    }
}

/// What such a line says is the number it names next, counted in kibibytes.
pub proof fn law_memory_is_counted_in_kibibytes(rest: Seq<char>, kib: u64)
    ensures
        text::leading_word(rest) == Some(dec(kib as nat)) && kib * 1024 <= u64::MAX ==> memory_said(
            rest,
        ) == Some((kib * 1024) as u64),
        text::leading_word(rest) == Some(dec(kib as nat)) && kib * 1024 > u64::MAX ==> memory_said(
            rest,
        ) is None,
        text::leading_word(rest) is None ==> memory_said(rest) is None,
{
    text::law_a_number_is_read_from_its_digits(rest, kib);
}

/// A dispatch is of a run where its launch is known and it names the run.
pub proof fn law_which_dispatches_are_of_a_run(equipped: Equipped)
    ensures
        equipped.in_run() <==> equipped.carried.launched is Some && equipped.carried.labels.run_id
            is Some,
{
}

/// What a composed dispatch carries on is what was asked and composed, and of the
/// environment what the hook added.
pub proof fn law_what_a_dispatch_carries_on(
    carried: Carried,
    composed: Composed,
    added: Vec<(String, String)>,
)
    requires
        carried.is_of(composed, added),
    ensures
        carried.graph == composed.request.graph,
        carried.task == composed.request.task,
        carried.labels == composed.request.labels,
        carried.cancel == composed.request.cancel,
        carried.attempt == composed.request.attempt,
        carried.launched == composed.launched,
        carried.sets == composed.sets,
        carried.env == added,
{
}

/// Labels are seen by their keys, each with its own value.
pub proof fn law_labels_are_seen_by_their_keys(labels: NameMap<String>, key: Seq<char>)
    ensures
        label_map(labels).contains_key(key) <==> labels@.contains_key(key),
        labels@.contains_key(key) ==> label_map(labels)[key] == labels@[key]@,
{
}

} // verus!
