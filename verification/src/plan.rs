//! The plan document: the nodes a planner asks for, and what each one declares.
use vstd::prelude::*;

use crate::text;
use crate::text::{text_of, texts};

verus! {

/// The plan schema version this build writes.
pub const PLAN_SCHEMA_VERSION: u32 = 3;

/// Every plan schema version this build reads.
pub const PLAN_SCHEMA_VERSIONS_READ: [u32; 3] = [1, 2, 3];

/// What an untitled lifecycle node is told.
pub const TITLE_IS_REQUIRED: &'static str =
    "a lifecycle node needs a `title`, which is the subject its change is published under";

/// What kind of work a node or a step is.
#[derive(Debug, Clone, Copy, PartialEq, Eq, Structural)]
pub enum NodeKind {
    /// A dispatch to an agent.
    Agent,
    /// An action a person takes.
    Human,
}

/// One step of a workstream.
#[derive(Debug, PartialEq, Eq)]
pub struct Step {
    /// Its id within the node.
    pub id: String,
    /// What kind of work it is.
    pub kind: NodeKind,
    /// The task prose.
    pub task: Option<String>,
    /// The persona its dispatch runs under.
    pub persona: Option<String>,
    /// The steps that come before it.
    pub deps: Vec<String>,
    /// The turn budget its dispatch runs under.
    pub max_turns: Option<u32>,
    /// Whether it settles without a dispatch.
    pub expects_no_diff: bool,
    /// The executor it asks for.
    pub executor: Option<String>,
    /// The agent graph it dispatches under.
    pub agent_graph: Option<String>,
}

/// What a re-dispatch of a node takes up again.
#[derive(Debug, PartialEq, Eq)]
pub struct Resume {
    /// The steps its branch already carries.
    pub completed_steps: Vec<String>,
}

/// One node of the graph.
#[derive(Debug, PartialEq, Eq)]
pub struct Node {
    /// Its id.
    pub id: String,
    /// What kind of work it is.
    pub kind: NodeKind,
    /// The nodes that come before it, of this graph or another run's.
    pub deps: Vec<String>,
    /// The persona its dispatch runs under.
    pub persona: Option<String>,
    /// The task prose.
    pub task: Option<String>,
    /// The subject its change is published under.
    pub title: Option<String>,
    /// The body its change request opens with.
    pub body: Option<String>,
    /// The repository its work happens in.
    pub repo: Option<String>,
    /// The steps of its workstream.
    pub steps: Option<Vec<Step>>,
    /// The turn budget its dispatch runs under.
    pub max_turns: Option<u32>,
    /// Whether it settles without a dispatch.
    pub expects_no_diff: bool,
    /// A planner's note to its next dispatch.
    pub context: Option<String>,
    /// A ruling its acceptance bar carries.
    pub amendment: Option<String>,
    /// Which release of a dependency it consumes, by dependency id, in id order.
    pub consumes: Vec<(String, String)>,
    /// Whether a planner idled it.
    pub parked: bool,
    /// The branch its session is pinned to.
    pub branch: Option<String>,
    /// The executor it asks for.
    pub executor: Option<String>,
    /// The agent graph it dispatches under.
    pub agent_graph: Option<String>,
    /// The merge policy its change is published under.
    pub merge_policy: Option<String>,
    /// What a re-dispatch takes up again.
    pub resume: Option<Resume>,
}

/// What the run as a whole is for.
#[derive(Debug, PartialEq, Eq)]
pub struct Goal {
    /// The goal, in prose.
    pub text: String,
}

/// A whole plan.
#[derive(Debug, PartialEq, Eq)]
pub struct Plan {
    /// The schema version the document declares.
    pub schema_version: u32,
    /// What the run is for.
    pub goal: Option<Goal>,
    /// What the plan is called.
    pub name: Option<String>,
    /// How many nodes may be dispatched at once.
    pub concurrency: u32,
    /// The nodes, in the order the planner wrote them.
    pub tasks: Vec<Node>,
}

/// A step as contracts speak of it.
#[verifier::ext_equal]
pub struct StepModel {
    pub id: Seq<char>,
    pub kind: NodeKind,
    pub task: Option<Seq<char>>,
    pub persona: Option<Seq<char>>,
    pub deps: Seq<Seq<char>>,
    pub max_turns: Option<u32>,
    pub expects_no_diff: bool,
    pub executor: Option<Seq<char>>,
    pub agent_graph: Option<Seq<char>>,
}

/// A node as contracts speak of it.
#[verifier::ext_equal]
pub struct NodeModel {
    pub id: Seq<char>,
    pub kind: NodeKind,
    pub deps: Seq<Seq<char>>,
    pub persona: Option<Seq<char>>,
    pub task: Option<Seq<char>>,
    pub title: Option<Seq<char>>,
    pub body: Option<Seq<char>>,
    pub repo: Option<Seq<char>>,
    pub steps: Option<Seq<StepModel>>,
    pub max_turns: Option<u32>,
    pub expects_no_diff: bool,
    pub context: Option<Seq<char>>,
    pub amendment: Option<Seq<char>>,
    pub consumes: Seq<(Seq<char>, Seq<char>)>,
    pub parked: bool,
    pub branch: Option<Seq<char>>,
    pub executor: Option<Seq<char>>,
    pub agent_graph: Option<Seq<char>>,
    pub merge_policy: Option<Seq<char>>,
    pub completed_steps: Option<Seq<Seq<char>>>,
}

/// A plan as contracts speak of it.
#[verifier::ext_equal]
pub struct PlanModel {
    pub schema_version: u32,
    pub goal: Option<Seq<char>>,
    pub name: Option<Seq<char>>,
    pub concurrency: u32,
    pub tasks: Seq<NodeModel>,
}

/// The steps of a list, as contracts speak of them.
pub open spec fn step_models(steps: Seq<Step>) -> Seq<StepModel> {
    steps.map_values(|s: Step| s@)
}

/// The nodes of a list, as contracts speak of them.
pub open spec fn node_models(nodes: Seq<Node>) -> Seq<NodeModel> {
    nodes.map_values(|n: Node| n@)
}

/// Pairs of strings, as contracts speak of them.
pub open spec fn pairs_of(pairs: Seq<(String, String)>) -> Seq<(Seq<char>, Seq<char>)> {
    pairs.map_values(|p: (String, String)| (p.0@, p.1@))
}

impl View for Step {
    type V = StepModel;

    open spec fn view(&self) -> StepModel {
        StepModel {
            id: self.id@,
            kind: self.kind,
            task: text_of(self.task),
            persona: text_of(self.persona),
            deps: texts(self.deps@),
            max_turns: self.max_turns,
            expects_no_diff: self.expects_no_diff,
            executor: text_of(self.executor),
            agent_graph: text_of(self.agent_graph),
        }
    }
}

impl View for Node {
    type V = NodeModel;

    open spec fn view(&self) -> NodeModel {
        NodeModel {
            id: self.id@,
            kind: self.kind,
            deps: texts(self.deps@),
            persona: text_of(self.persona),
            task: text_of(self.task),
            title: text_of(self.title),
            body: text_of(self.body),
            repo: text_of(self.repo),
            steps: match self.steps {
                Some(steps) => Some(step_models(steps@)),
                None => None,
            },
            max_turns: self.max_turns,
            expects_no_diff: self.expects_no_diff,
            context: text_of(self.context),
            amendment: text_of(self.amendment),
            consumes: pairs_of(self.consumes@),
            parked: self.parked,
            branch: text_of(self.branch),
            executor: text_of(self.executor),
            agent_graph: text_of(self.agent_graph),
            merge_policy: text_of(self.merge_policy),
            completed_steps: match self.resume {
                Some(resume) => Some(texts(resume.completed_steps@)),
                None => None,
            },
        }
    }
}

impl View for Plan {
    type V = PlanModel;

    open spec fn view(&self) -> PlanModel {
        PlanModel {
            schema_version: self.schema_version,
            goal: match self.goal {
                Some(goal) => Some(goal.text@),
                None => None,
            },
            name: text_of(self.name),
            concurrency: self.concurrency,
            tasks: node_models(self.tasks@),
        }
    }
}

/// A copy of a list of strings.
pub fn copy_strings(list: &Vec<String>) -> (r: Vec<String>)
    ensures
        texts(r@) == texts(list@),
        r@ == list@,
{
    let mut out: Vec<String> = Vec::new();
    let mut i: usize = 0;
    while i < list.len()
        invariant
            i <= list@.len(),
            out@ == list@.take(i as int),
        decreases list@.len() - i,
    {
        out.push(list[i].clone());
        i += 1;
        assert(out@ =~= list@.take(i as int));
    }
    assert(out@ =~= list@);
    out
}

/// A copy of an optional string.
pub fn copy_text(s: &Option<String>) -> (r: Option<String>)
    ensures
        r == *s,
        text_of(r) == text_of(*s),
{
    match s {
        Some(s) => Some(s.clone()),
        None => None,
    }
}

impl Clone for Step {
    fn clone(&self) -> (r: Self)
        ensures
            r@ == self@,
    {
        Step {
            id: self.id.clone(),
            kind: self.kind,
            task: copy_text(&self.task),
            persona: copy_text(&self.persona),
            deps: copy_strings(&self.deps),
            max_turns: self.max_turns,
            expects_no_diff: self.expects_no_diff,
            executor: copy_text(&self.executor),
            agent_graph: copy_text(&self.agent_graph),
        }
    }
}

/// A copy of a list of steps.
pub fn copy_steps(list: &Vec<Step>) -> (r: Vec<Step>)
    ensures
        step_models(r@) == step_models(list@),
{
    let mut out: Vec<Step> = Vec::new();
    let mut i: usize = 0;
    while i < list.len()
        invariant
            i <= list@.len(),
            step_models(out@) == step_models(list@).take(i as int),
        decreases list@.len() - i,
    {
        let step = list[i].clone();
        let ghost was = out@;
        out.push(step);
        assert(step_models(out@) =~= step_models(was).push(step@));
        i += 1;
        assert(step_models(out@) =~= step_models(list@).take(i as int));
    }
    assert(step_models(out@) =~= step_models(list@));
    out
}

/// A copy of a list of pairs of strings.
pub fn copy_pairs(list: &Vec<(String, String)>) -> (r: Vec<(String, String)>)
    ensures
        r@ == list@,
        pairs_of(r@) == pairs_of(list@),
{
    let mut out: Vec<(String, String)> = Vec::new();
    let mut i: usize = 0;
    while i < list.len()
        invariant
            i <= list@.len(),
            out@ == list@.take(i as int),
        decreases list@.len() - i,
    {
        out.push((list[i].0.clone(), list[i].1.clone()));
        i += 1;
        assert(out@ =~= list@.take(i as int));
    }
    assert(out@ =~= list@);
    out
}

impl Clone for Node {
    fn clone(&self) -> (r: Self)
        ensures
            r@ == self@,
    {
        Node {
            id: self.id.clone(),
            kind: self.kind,
            deps: copy_strings(&self.deps),
            persona: copy_text(&self.persona),
            task: copy_text(&self.task),
            title: copy_text(&self.title),
            body: copy_text(&self.body),
            repo: copy_text(&self.repo),
            steps: match &self.steps {
                Some(steps) => Some(copy_steps(steps)),
                None => None,
            },
            max_turns: self.max_turns,
            expects_no_diff: self.expects_no_diff,
            context: copy_text(&self.context),
            amendment: copy_text(&self.amendment),
            consumes: copy_pairs(&self.consumes),
            parked: self.parked,
            branch: copy_text(&self.branch),
            executor: copy_text(&self.executor),
            agent_graph: copy_text(&self.agent_graph),
            merge_policy: copy_text(&self.merge_policy),
            resume: match &self.resume {
                Some(resume) => Some(
                    Resume { completed_steps: copy_strings(&resume.completed_steps) },
                ),
                None => None,
            },
        }
    }
}

impl Default for Step {
    fn default() -> (r: Self)
        ensures
            r@ == (StepModel {
                id: text::nothing(),
                kind: NodeKind::Agent,
                task: None,
                persona: None,
                deps: Seq::empty(),
                max_turns: None,
                expects_no_diff: false,
                executor: None,
                agent_graph: None,
            }),
    {
        Step {
            id: String::new(),
            kind: NodeKind::Agent,
            task: None,
            persona: None,
            deps: Vec::new(),
            max_turns: None,
            expects_no_diff: false,
            executor: None,
            agent_graph: None,
        }
    }
}

impl Default for Node {
    fn default() -> (r: Self)
        ensures
            r@ == (NodeModel {
                id: text::nothing(),
                kind: NodeKind::Agent,
                deps: Seq::empty(),
                persona: None,
                task: None,
                title: None,
                body: None,
                repo: None,
                steps: None,
                max_turns: None,
                expects_no_diff: false,
                context: None,
                amendment: None,
                consumes: Seq::empty(),
                parked: false,
                branch: None,
                executor: None,
                agent_graph: None,
                merge_policy: None,
                completed_steps: None,
            }),
    {
        Node {
            id: String::new(),
            kind: NodeKind::Agent,
            deps: Vec::new(),
            persona: None,
            task: None,
            title: None,
            body: None,
            repo: None,
            steps: None,
            max_turns: None,
            expects_no_diff: false,
            context: None,
            amendment: None,
            consumes: Vec::new(),
            parked: false,
            branch: None,
            executor: None,
            agent_graph: None,
            merge_policy: None,
            resume: None,
        }
    }
}

/// What a plan that names `body` before its version had one is told.
pub open spec fn body_newer(version: nat) -> Seq<char> {
    "unknown field `body`, which a plan may carry from schema_version "@ + text::dec(
        PLAN_SCHEMA_VERSION as nat,
    ) + "; this plan declares "@ + text::dec(version)
}

/// What a plan that names `body` before its version had one is told.
pub fn body_is_newer(version: u32) -> (r: String)
    ensures
        r@ == body_newer(version as nat),
{
    let mut out: String = String::from_str(
        "unknown field `body`, which a plan may carry from schema_version ",
    );
    text::push_dec(&mut out, PLAN_SCHEMA_VERSION as u64);
    out.append("; this plan declares ");
    text::push_dec(&mut out, version as u64);
    out
}

/// A node is seen whole: every field contracts speak of is what the node declares.
pub proof fn law_a_node_is_seen_whole(node: Node)
    ensures
        node@.id == node.id@,
        node@.kind == node.kind,
        node@.parked == node.parked,
        node@.expects_no_diff == node.expects_no_diff,
        node@.max_turns == node.max_turns,
        node@.deps.len() == node.deps@.len(),
        forall|d: int| 0 <= d < node.deps@.len() ==> #[trigger] node@.deps[d] == node.deps@[d]@,
        node@.consumes.len() == node.consumes@.len(),
        forall|c: int|
            0 <= c < node.consumes@.len() ==> #[trigger] node@.consumes[c] == (
                node.consumes@[c].0@,
                node.consumes@[c].1@,
            ),
        node.persona is None <==> node@.persona is None,
        node.persona matches Some(s) ==> node@.persona == Some(s@),
        node.task is None <==> node@.task is None,
        node.task matches Some(s) ==> node@.task == Some(s@),
        node.title is None <==> node@.title is None,
        node.title matches Some(s) ==> node@.title == Some(s@),
        node.body is None <==> node@.body is None,
        node.body matches Some(s) ==> node@.body == Some(s@),
        node.repo is None <==> node@.repo is None,
        node.repo matches Some(s) ==> node@.repo == Some(s@),
        node.context is None <==> node@.context is None,
        node.context matches Some(s) ==> node@.context == Some(s@),
        node.amendment is None <==> node@.amendment is None,
        node.amendment matches Some(s) ==> node@.amendment == Some(s@),
        node.branch is None <==> node@.branch is None,
        node.branch matches Some(s) ==> node@.branch == Some(s@),
        node.executor is None <==> node@.executor is None,
        node.executor matches Some(s) ==> node@.executor == Some(s@),
        node.agent_graph is None <==> node@.agent_graph is None,
        node.agent_graph matches Some(s) ==> node@.agent_graph == Some(s@),
        node.merge_policy is None <==> node@.merge_policy is None,
        node.merge_policy matches Some(s) ==> node@.merge_policy == Some(s@),
        node.steps is None <==> node@.steps is None,
        node.steps matches Some(steps) ==> node@.steps->0.len() == steps@.len() && forall|i: int|
            0 <= i < steps@.len() ==> #[trigger] node@.steps->0[i] == steps@[i]@,
        node.resume is None <==> node@.completed_steps is None,
        node.resume matches Some(resume) ==> node@.completed_steps->0.len()
            == resume.completed_steps@.len() && forall|i: int|
            0 <= i < resume.completed_steps@.len() ==> #[trigger] node@.completed_steps->0[i]
                == resume.completed_steps@[i]@,
{
}

/// A step is seen whole.
pub proof fn law_a_step_is_seen_whole(step: Step)
    ensures
        step@.id == step.id@,
        step@.kind == step.kind,
        step@.max_turns == step.max_turns,
        step@.expects_no_diff == step.expects_no_diff,
        step@.deps.len() == step.deps@.len(),
        forall|d: int| 0 <= d < step.deps@.len() ==> #[trigger] step@.deps[d] == step.deps@[d]@,
        step.task is None <==> step@.task is None,
        step.task matches Some(s) ==> step@.task == Some(s@),
        step.persona is None <==> step@.persona is None,
        step.persona matches Some(s) ==> step@.persona == Some(s@),
        step.executor is None <==> step@.executor is None,
        step.executor matches Some(s) ==> step@.executor == Some(s@),
        step.agent_graph is None <==> step@.agent_graph is None,
        step.agent_graph matches Some(s) ==> step@.agent_graph == Some(s@),
{
}

/// A plan is seen whole, its nodes in the order they were written.
pub proof fn law_a_plan_is_seen_whole(plan: Plan)
    ensures
        plan@.schema_version == plan.schema_version,
        plan@.concurrency == plan.concurrency,
        plan.goal is None <==> plan@.goal is None,
        plan.goal matches Some(goal) ==> plan@.goal == Some(goal.text@),
        plan.name is None <==> plan@.name is None,
        plan.name matches Some(s) ==> plan@.name == Some(s@),
        plan@.tasks.len() == plan.tasks@.len(),
        forall|i: int| 0 <= i < plan.tasks@.len() ==> #[trigger] plan@.tasks[i] == plan.tasks@[i]@,
{
}

} // verus!
