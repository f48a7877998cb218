//! The task DAG: what its nodes may do next.
//!
//! `blocked` and `skipped` are *derived*, never stored: every read discards them
//! and derives them again against the graph as it is now, so a node a planner
//! just made eligible is schedulable on the same pass.
use vstd::prelude::*;

use crate::crossdag;
use crate::names::NameMap;
use crate::plan;
use crate::plan::{node_models, Goal, Node, NodeKind, NodeModel, Plan, PlanModel};
use crate::text;
use crate::text::{texts, trim};

pub use crate::status::{GraphState, Landing, NodeStatus};
pub use crate::validate::{validate, validate_edited, validate_node, STEP_SEPARATOR};

verus! {

/// The identity of a node this graph carries.
///
/// [`NodeRef::of`] is the only constructor and it takes a [`Node`], so an
/// identity crossing a boundary as a value of this type came from a node, and is
/// never empty.
#[derive(Debug, PartialEq, Eq)]
pub struct NodeRef(String);

impl NodeRef {
    /// The identity, as a graph, a journal label and a surface spell it.
    pub closed spec fn spelled(&self) -> Seq<char> {
        self.0@
    }

    /// The identity of a node, trimmed, or nothing where its id is blank.
    pub fn of(node: &Node) -> (r: Option<Self>)
        ensures
            match r {
                Some(named) => trim(node.id@).len() > 0 && named.spelled() == trim(node.id@),
                None => trim(node.id@).len() == 0,
            },
    {
        let id = text::trimmed(node.id.as_str());
        if id.as_str().is_empty() {
            None
        } else {
            Some(NodeRef(id))
        }
    }

    /// The identity, spelled.
    pub fn as_str(&self) -> (r: &str)
        ensures
            r@ == self.spelled(),
    {
        self.0.as_str()
    }
}

/// The desired graph: the nodes the loop is converging toward, in the order the
/// planner wrote them.
pub struct Graph {
    nodes: NameMap<Node>,
    /// How many nodes may be dispatched at once.
    pub concurrency: u32,
}

impl Graph {
    /// The node ids, in order.
    pub closed spec fn order(&self) -> Seq<Seq<char>> {
        self.nodes.order()
    }

    /// The nodes, in the order of their ids.
    pub closed spec fn nodes(&self) -> Seq<NodeModel> {
        node_models(self.nodes.listed())
    }

    /// How many nodes may be dispatched at once.
    pub closed spec fn ceiling(&self) -> u32 {
        self.concurrency
    }

    /// Every node stands once, under its own id.
    pub closed spec fn wf(&self) -> bool {
        &&& self.nodes.wf()
        &&& forall|k: Seq<char>| #[trigger]
            self.nodes@.contains_key(k) ==> self.nodes@[k].id@ == k
    }
}

impl View for Graph {
    type V = Map<Seq<char>, NodeModel>;

    closed spec fn view(&self) -> Map<Seq<char>, NodeModel> {
        self.nodes@.map_values(|n: Node| n@)
    }
}

/// A graph's own node under each id of its order.
pub open spec fn arranged(
    map: Map<Seq<char>, NodeModel>,
    order: Seq<Seq<char>>,
    nodes: Seq<NodeModel>,
) -> bool {
    &&& order.len() == nodes.len()
    &&& order.no_duplicates()
    &&& forall|k: Seq<char>| #[trigger] map.contains_key(k) <==> order.contains(k)
    &&& forall|i: int|
        #![trigger order[i]]
        #![trigger nodes[i]]
        0 <= i < order.len() ==> {
            &&& map.contains_key(order[i])
            &&& map[order[i]] == nodes[i]
            &&& nodes[i].id == order[i]
        }
}

/// The order and the nodes a list of insertions leaves behind: a new id comes
/// last, and a node with an id already there replaces it in place.
pub open spec fn inserted(
    map: Map<Seq<char>, NodeModel>,
    order: Seq<Seq<char>>,
    tasks: Seq<NodeModel>,
) -> (Map<Seq<char>, NodeModel>, Seq<Seq<char>>)
    decreases tasks.len(),
{
    if tasks.len() == 0 {
        (map, order)
    } else {
        let (m, o) = inserted(map, order, tasks.drop_last());
        let n = tasks.last();
        (
            m.insert(n.id, n),
            if m.contains_key(n.id) {
                o
            } else {
                o.push(n.id)
            },
        )
    }
}

impl Graph {
    /// What well-formedness says of the views of one graph.
    pub proof fn lemma_views(&self)
        requires
            self.wf(),
        ensures
            arranged(self@, self.order(), self.nodes()),
    {
        self.nodes.lemma_views();
        assert forall|k: Seq<char>| #[trigger]
            self@.contains_key(k) <==> self.order().contains(k) by {
            assert(self.nodes@.contains_key(k) <==> self.order().contains(k));
        }
    }

    /// An empty graph that will dispatch at most `concurrency` nodes at once.
    pub fn with_concurrency(concurrency: u32) -> (r: Self)
        ensures
            r.wf(),
            r@ == Map::<Seq<char>, NodeModel>::empty(),
            r.order() == Seq::<Seq<char>>::empty(),
            r.ceiling() == concurrency,
    {
        let r = Graph { nodes: NameMap::new(), concurrency };
        assert(r@ =~= Map::<Seq<char>, NodeModel>::empty());
        r
    }

    /// The graph a plan describes.
    pub fn from_plan(plan: &Plan) -> (r: Self)
        ensures
            r.wf(),
            (r@, r.order()) == inserted(Map::empty(), Seq::empty(), plan@.tasks),
            r.ceiling() == plan.concurrency,
    {
        let mut graph = Graph::with_concurrency(plan.concurrency);
        let mut i: usize = 0;
        while i < plan.tasks.len()
            invariant
                i <= plan.tasks@.len(),
                graph.wf(),
                graph.ceiling() == plan.concurrency,
                (graph@, graph.order()) == inserted(
                    Map::empty(),
                    Seq::empty(),
                    plan@.tasks.take(i as int),
                ),
            decreases plan.tasks@.len() - i,
        {
            let node = plan.tasks[i].clone();
            proof {
                let after = plan@.tasks.take(i + 1);
                assert(after.drop_last() =~= plan@.tasks.take(i as int));
                assert(after.last() == node@);
            }
            graph.insert(node);
            i += 1;
        }
        assert(plan@.tasks.take(plan.tasks@.len() as int) =~= plan@.tasks);
        graph
    }

    /// The plan this graph would be written as.
    pub fn to_plan(&self, source: &Plan) -> (r: Plan)
        ensures
            r@ == (PlanModel {
                schema_version: source@.schema_version,
                goal: source@.goal,
                name: source@.name,
                concurrency: self.ceiling(),
                tasks: self.nodes(),
            }),
    {
        let list = self.nodes.values();
        let mut tasks: Vec<Node> = Vec::new();
        let mut i: usize = 0;
        while i < list.len()
            invariant
                i <= list@.len(),
                node_models(list@) == self.nodes(),
                node_models(tasks@) == self.nodes().take(i as int),
            decreases list@.len() - i,
        {
            let node = list[i].clone();
            let ghost was = tasks@;
            tasks.push(node);
            assert(node_models(tasks@) =~= node_models(was).push(node@));
            assert(self.nodes()[i as int] == list@[i as int]@);
            i += 1;
            assert(node_models(tasks@) =~= self.nodes().take(i as int));
        }
        assert(node_models(tasks@) =~= self.nodes());
        Plan {
            schema_version: source.schema_version,
            goal: match &source.goal {
                Some(goal) => Some(Goal { text: goal.text.clone() }),
                None => None,
            },
            name: plan::copy_text(&source.name),
            concurrency: self.concurrency,
            tasks,
        }
    }

    /// Add a node, or replace one with the same id in place.
    pub fn insert(&mut self, node: Node)
        requires
            old(self).wf(),
        ensures
            final(self).wf(),
            final(self)@ == old(self)@.insert(node@.id, node@),
            final(self).order() == (if old(self)@.contains_key(node@.id) {
                old(self).order()
            } else {
                old(self).order().push(node@.id)
            }),
            final(self).ceiling() == old(self).ceiling(),
    {
        let id = node.id.clone();
        let ghost model = node@;
        self.nodes.insert(id, node);
        assert(self@ =~= old(self)@.insert(model.id, model));
    }

    /// Remove a node, keeping the order of the rest.
    pub fn remove(&mut self, id: &str) -> (r: Option<Node>)
        requires
            old(self).wf(),
        ensures
            final(self).wf(),
            final(self)@ == old(self)@.remove(id@),
            final(self).ceiling() == old(self).ceiling(),
            match r {
                Some(node) => {
                    &&& old(self)@.contains_key(id@)
                    &&& node@ == old(self)@[id@]
                    &&& final(self).order() == old(self).order().remove(
                        old(self).order().index_of(id@),
                    )
                },
                None => !old(self)@.contains_key(id@) && final(self).order() == old(self).order(),
            },
    {
        let r = self.nodes.remove(id);
        assert(self@ =~= old(self)@.remove(id@));
        r
    }

    /// One node, by id.
    pub fn get(&self, id: &str) -> (r: Option<&Node>)
        requires
            self.wf(),
        ensures
            match r {
                Some(node) => self@.contains_key(id@) && node@ == self@[id@],
                None => !self@.contains_key(id@),
            },
    {
        self.nodes.get(id)
    }

    /// One node, by id, to change. The graph stays well formed where the node
    /// keeps its id.
    pub fn get_mut(&mut self, id: &str) -> (r: Option<&mut Node>)
        requires
            old(self).wf(),
        ensures
            final(self).order() == old(self).order(),
            final(self).ceiling() == old(self).ceiling(),
            match r {
                Some(node) => {
                    &&& old(self)@.contains_key(id@)
                    &&& node@ == old(self)@[id@]
                    &&& final(self)@ == old(self)@.insert(id@, final(node)@)
                    &&& final(node).id@ == id@ ==> final(self).wf()
                },
                None => !old(self)@.contains_key(id@) && final(self)@ == old(self)@
                    && final(self).wf(),
            },
    {
        self.nodes.get_mut(id)
    }

    /// Whether the graph holds a node with this id.
    pub fn contains(&self, id: &str) -> (r: bool)
        ensures
            r == self@.contains_key(id@),
    {
        self.nodes.contains(id)
    }

    /// The nodes, in the order the plan wrote them.
    pub fn iter(&self) -> (r: &Vec<Node>)
        ensures
            node_models(r@) == self.nodes(),
    {
        self.nodes.values()
    }

    /// The node ids, in the order the plan wrote them.
    pub fn ids(&self) -> (r: &Vec<String>)
        ensures
            texts(r@) == self.order(),
    {
        self.nodes.names()
    }

    /// How many nodes the graph holds.
    pub fn len(&self) -> (r: usize)
        ensures
            r == self.order().len(),
    {
        self.nodes.len()
    }

    /// Whether the graph holds no nodes.
    pub fn is_empty(&self) -> (r: bool)
        ensures
            r == (self.order().len() == 0),
    {
        self.nodes.len() == 0
    }

    /// The nodes that name `id` as a dependency, in order.
    pub fn dependents_of(&self, id: &str) -> (r: Vec<String>)
        ensures
            texts(r@) == dependents(self.nodes(), id@),
    {
        let list = self.nodes.values();
        let mut out: Vec<String> = Vec::new();
        let mut i: usize = 0;
        while i < list.len()
            invariant
                i <= list@.len(),
                node_models(list@) == self.nodes(),
                texts(out@) == dependents(self.nodes().take(i as int), id@),
            decreases list@.len() - i,
        {
            let ghost taken = self.nodes().take(i + 1);
            let node = &list[i];
            proof {
                assert(taken.drop_last() =~= self.nodes().take(i as int));
                assert(taken.last() == node@);
            }
            if names(&node.deps, id) {
                let ghost was = texts(out@);
                out.push(node.id.clone());
                assert(texts(out@) =~= was.push(node.id@));
            }
            i += 1;
        }
        assert(self.nodes().take(list@.len() as int) =~= self.nodes());
        out
    }
}

impl Default for Graph {
    fn default() -> (r: Self)
        ensures
            r.wf(),
            r@ == Map::<Seq<char>, NodeModel>::empty(),
            r.order() == Seq::<Seq<char>>::empty(),
            r.ceiling() == 0,
    {
        Graph::with_concurrency(0)
    }
}

/// The ids of the nodes that name `id` as a dependency, in order.
pub open spec fn dependents(nodes: Seq<NodeModel>, id: Seq<char>) -> Seq<Seq<char>>
    decreases nodes.len(),
{
    if nodes.len() == 0 {
        Seq::empty()
    } else if nodes.last().deps.contains(id) {
        dependents(nodes.drop_last(), id).push(nodes.last().id)
    } else {
        dependents(nodes.drop_last(), id)
    }
}

fn names(list: &Vec<String>, id: &str) -> (r: bool)
    ensures
        r == texts(list@).contains(id@),
{
    let mut i: usize = 0;
    while i < list.len()
        invariant
            i <= list@.len(),
            forall|j: int| 0 <= j < i ==> #[trigger] texts(list@)[j] != id@,
        decreases list@.len() - i,
    {
        if text::same(list[i].as_str(), id) {
            assert(texts(list@)[i as int] == id@);
            return true;
        }
        i += 1;
    }
    false
}

/// The statuses of the nodes that have one, by node id.
pub type Statuses = NameMap<NodeStatus>;

/// The statuses of the nodes that have one, as contracts speak of them.
pub type StatusModel = Map<Seq<char>, NodeStatus>;

/// Whether a dependency reference names another run's node rather than this
/// graph's.
pub fn is_cross_dag(reference: &str) -> (r: bool)
    ensures
        r == crossdag::reference(reference@),
{
    crossdag::is_reference(reference)
}

/// A dependency in this state makes executing its dependents unsafe.
pub open spec fn skips(status: NodeStatus) -> bool {
    status == NodeStatus::Failed || status == NodeStatus::Skipped
}

/// A dependency in this state holds its dependents without failing them.
pub open spec fn gates(status: NodeStatus) -> bool {
    ||| status == NodeStatus::Waiting
    ||| status == NodeStatus::Blocked
    ||| status == NodeStatus::Parked
    ||| status == NodeStatus::Cancelled
}

fn skips_dependents(status: NodeStatus) -> (r: bool)
    ensures
        r == skips(status),
{
    match status {
        NodeStatus::Failed | NodeStatus::Skipped => true,
        _ => false,
    }
}

/// What one dependency says of the node that declares it.
pub enum Bearing {
    /// It has settled done, or a drop detached it.
    Clear,
    /// It failed or was skipped.
    Fails,
    /// It holds the node.
    Gates,
    /// It has not settled.
    Open,
}

/// What a dependency's own status says of the node that declares it.
pub open spec fn bearing_of(status: NodeStatus) -> Bearing {
    if status == NodeStatus::Done {
        Bearing::Clear
    } else if skips(status) {
        Bearing::Fails
    } else if gates(status) {
        Bearing::Gates
    } else {
        Bearing::Open
    }
}

/// What one dependency says of the node that declares it: a reference into
/// another run by what it resolved to, a node of this graph by its status so
/// far, and a node the graph no longer holds not at all.
pub open spec fn bearing(
    graph: Map<Seq<char>, NodeModel>,
    statuses: StatusModel,
    resolved: StatusModel,
    dep: Seq<char>,
) -> Bearing {
    if crossdag::reference(dep) {
        if resolved.contains_key(dep) {
            bearing_of(resolved[dep])
        } else {
            Bearing::Gates
        }
    } else if !graph.contains_key(dep) {
        Bearing::Clear
    } else if statuses.contains_key(dep) {
        bearing_of(statuses[dep])
    } else {
        Bearing::Open
    }
}

/// Some dependency of a node says this of it.
pub open spec fn bears(
    graph: Map<Seq<char>, NodeModel>,
    node: NodeModel,
    statuses: StatusModel,
    resolved: StatusModel,
    what: Bearing,
) -> bool {
    exists|d: int|
        0 <= d < node.deps.len() && bearing(graph, statuses, resolved, #[trigger] node.deps[d])
            == what
}

/// The status a node is eligible for, or nothing while a dependency has not
/// settled. A failure outranks a hold, and a hold outranks waiting.
pub open spec fn eligible(
    graph: Map<Seq<char>, NodeModel>,
    node: NodeModel,
    statuses: StatusModel,
    resolved: StatusModel,
) -> Option<NodeStatus> {
    if bears(graph, node, statuses, resolved, Bearing::Fails) {
        Some(NodeStatus::Skipped)
    } else if bears(graph, node, statuses, resolved, Bearing::Gates) {
        Some(NodeStatus::Blocked)
    } else if bears(graph, node, statuses, resolved, Bearing::Open) {
        None
    } else if node.parked {
        Some(NodeStatus::Parked)
    } else if node.kind == NodeKind::Human {
        Some(NodeStatus::Waiting)
    } else {
        Some(NodeStatus::Ready)
    }
}

/// The status one dependency has, where it has one to read.
fn bearing_on(
    graph: &Graph,
    statuses: &Statuses,
    resolved: &Statuses,
    dep: &String,
) -> (r: Bearing)
    requires
        graph.wf(),
        statuses.wf(),
        resolved.wf(),
    ensures
        r == bearing(graph@, statuses@, resolved@, dep@),
{
    let status: NodeStatus = if is_cross_dag(dep.as_str()) {
        match resolved.get(dep.as_str()) {
            Some(status) => *status,
            None => {
                return Bearing::Gates;
            },
        }
    } else if graph.contains(dep.as_str()) {
        match statuses.get(dep.as_str()) {
            Some(status) => *status,
            None => {
                return Bearing::Open;
            },
        }
    } else {
        return Bearing::Clear;
    };
    match status {
        NodeStatus::Done => Bearing::Clear,
        NodeStatus::Failed | NodeStatus::Skipped => Bearing::Fails,
        NodeStatus::Waiting | NodeStatus::Blocked | NodeStatus::Parked | NodeStatus::Cancelled => {
            Bearing::Gates
        },
        _ => Bearing::Open,
    }
}

/// The status a node is eligible for against what has settled so far.
pub fn eligibility(
    graph: &Graph,
    node: &Node,
    statuses: &Statuses,
    resolved: &Statuses,
) -> (r: Option<NodeStatus>)
    requires
        graph.wf(),
        statuses.wf(),
        resolved.wf(),
    ensures
        r == eligible(graph@, node@, statuses@, resolved@),
{
    let mut open: bool = false;
    let mut failed: bool = false;
    let mut gated: bool = false;
    let mut d: usize = 0;
    while d < node.deps.len()
        invariant
            graph.wf(),
            statuses.wf(),
            resolved.wf(),
            d <= node.deps@.len(),
            failed == (exists|e: int|
                0 <= e < d && bearing(graph@, statuses@, resolved@, #[trigger] node@.deps[e])
                    == Bearing::Fails),
            gated == (exists|e: int|
                0 <= e < d && bearing(graph@, statuses@, resolved@, #[trigger] node@.deps[e])
                    == Bearing::Gates),
            open == (exists|e: int|
                0 <= e < d && bearing(graph@, statuses@, resolved@, #[trigger] node@.deps[e])
                    == Bearing::Open),
        decreases node.deps@.len() - d,
    {
        assert(node@.deps[d as int] == node.deps@[d as int]@);
        match bearing_on(graph, statuses, resolved, &node.deps[d]) {
            Bearing::Clear => {},
            Bearing::Fails => {
                failed = true;
            },
            Bearing::Gates => {
                gated = true;
            },
            Bearing::Open => {
                open = true;
            },
        }
        d += 1;
    }
    if failed {
        return Some(NodeStatus::Skipped);
    }
    if gated {
        return Some(NodeStatus::Blocked);
    }
    if open {
        return None;
    }
    if node.parked {
        return Some(NodeStatus::Parked);
    }
    if node.kind == NodeKind::Human {
        return Some(NodeStatus::Waiting);
    }
    Some(NodeStatus::Ready)
}

/// The status a node has before anything is derived: a park outranks whatever
/// was recorded, and a recorded gate is discarded.
pub open spec fn standing(node: NodeModel, recorded: StatusModel) -> Option<NodeStatus> {
    if node.parked {
        Some(NodeStatus::Parked)
    } else if recorded.contains_key(node.id) && recorded[node.id] != NodeStatus::Blocked
        && recorded[node.id] != NodeStatus::Skipped {
        Some(recorded[node.id])
    } else {
        None
    }
}

/// A dependency that makes running its dependents unsafe before anything is
/// derived: a reference that resolved to a failure, or a node recorded as one.
pub open spec fn fails_outright(
    graph: Map<Seq<char>, NodeModel>,
    recorded: StatusModel,
    resolved: StatusModel,
    dep: Seq<char>,
) -> bool {
    if crossdag::reference(dep) {
        resolved.contains_key(dep) && skips(resolved[dep])
    } else {
        graph.contains_key(dep) && match standing(graph[dep], recorded) {
            Some(status) => skips(status),
            None => false,
        }
    }
}

/// A node is skipped within `n` dependencies of a failure: nothing stands for it,
/// and it depends on a failure, or on a node that is itself skipped and nearer to
/// one.
pub open spec fn skipped_within(
    graph: Map<Seq<char>, NodeModel>,
    recorded: StatusModel,
    resolved: StatusModel,
    id: Seq<char>,
    n: nat,
) -> bool
    decreases n,
{
    &&& graph.contains_key(id)
    &&& standing(graph[id], recorded) is None
    &&& exists|d: int|
        0 <= d < graph[id].deps.len() && {
            let dep = #[trigger] graph[id].deps[d];
            ||| fails_outright(graph, recorded, resolved, dep)
            ||| n > 0 && !crossdag::reference(dep) && skipped_within(
                graph,
                recorded,
                resolved,
                dep,
                (n - 1) as nat,
            )
        }
}

/// A node is skipped: a failure lies behind it, however far.
pub open spec fn skipped(
    graph: Map<Seq<char>, NodeModel>,
    recorded: StatusModel,
    resolved: StatusModel,
    id: Seq<char>,
) -> bool {
    exists|n: nat| #[trigger] skipped_within(graph, recorded, resolved, id, n)
}

/// A dependency that holds a node up no longer: a reference that resolved to
/// done, a node recorded done, or one the graph no longer holds.
pub open spec fn is_clear(
    graph: Map<Seq<char>, NodeModel>,
    recorded: StatusModel,
    resolved: StatusModel,
    dep: Seq<char>,
) -> bool {
    if crossdag::reference(dep) {
        resolved.contains_key(dep) && resolved[dep] == NodeStatus::Done
    } else {
        graph.contains_key(dep) ==> standing(graph[dep], recorded) == Some(NodeStatus::Done)
    }
}

/// Every dependency of a node is clear.
pub open spec fn all_clear(
    graph: Map<Seq<char>, NodeModel>,
    recorded: StatusModel,
    resolved: StatusModel,
    node: NodeModel,
) -> bool {
    forall|d: int|
        0 <= d < node.deps.len() ==> is_clear(graph, recorded, resolved, #[trigger] node.deps[d])
}

/// A dependency that holds its dependents by itself: a reference that has not
/// resolved or resolved to a hold, a node recorded as one, or a human action
/// whose turn has come.
pub open spec fn holds_outright(
    graph: Map<Seq<char>, NodeModel>,
    recorded: StatusModel,
    resolved: StatusModel,
    dep: Seq<char>,
) -> bool {
    if crossdag::reference(dep) {
        resolved.contains_key(dep) ==> gates(resolved[dep])
    } else {
        graph.contains_key(dep) && match standing(graph[dep], recorded) {
            Some(status) => gates(status),
            None => graph[dep].kind == NodeKind::Human && all_clear(
                graph,
                recorded,
                resolved,
                graph[dep],
            ),
        }
    }
}

/// A node is blocked within `n` dependencies of a hold: nothing stands for it, it
/// is not skipped, and it depends on a hold, or on a node that is itself blocked
/// and nearer to one.
pub open spec fn blocked_within(
    graph: Map<Seq<char>, NodeModel>,
    recorded: StatusModel,
    resolved: StatusModel,
    id: Seq<char>,
    n: nat,
) -> bool
    decreases n,
{
    &&& graph.contains_key(id)
    &&& standing(graph[id], recorded) is None
    &&& !skipped(graph, recorded, resolved, id)
    &&& exists|d: int|
        0 <= d < graph[id].deps.len() && {
            let dep = #[trigger] graph[id].deps[d];
            ||| holds_outright(graph, recorded, resolved, dep)
            ||| n > 0 && !crossdag::reference(dep) && blocked_within(
                graph,
                recorded,
                resolved,
                dep,
                (n - 1) as nat,
            )
        }
}

/// A node is blocked: a hold lies behind it, however far, and no failure does.
pub open spec fn blocked(
    graph: Map<Seq<char>, NodeModel>,
    recorded: StatusModel,
    resolved: StatusModel,
    id: Seq<char>,
) -> bool {
    exists|n: nat| #[trigger] blocked_within(graph, recorded, resolved, id, n)
}

/// The status one node of a graph has: what stands for it, else skipped before
/// blocked, else its turn once every dependency is clear, else pending.
pub open spec fn status_of(
    graph: Map<Seq<char>, NodeModel>,
    recorded: StatusModel,
    resolved: StatusModel,
    id: Seq<char>,
) -> NodeStatus {
    match standing(graph[id], recorded) {
        Some(status) => status,
        None => if skipped(graph, recorded, resolved, id) {
            NodeStatus::Skipped
        } else if blocked(graph, recorded, resolved, id) {
            NodeStatus::Blocked
        } else if !all_clear(graph, recorded, resolved, graph[id]) {
            NodeStatus::Pending
        } else if graph[id].kind == NodeKind::Human {
            NodeStatus::Waiting
        } else {
            NodeStatus::Ready
        },
    }
}

/// Every node's status, derived from the graph and what has already settled. The
/// order of the nodes has no part in it.
pub open spec fn derived(
    graph: Map<Seq<char>, NodeModel>,
    recorded: StatusModel,
    resolved: StatusModel,
) -> StatusModel {
    Map::new(
        |id: Seq<char>| graph.contains_key(id),
        |id: Seq<char>| status_of(graph, recorded, resolved, id),
    )
}

/// How many nodes of a list have no status.
pub open spec fn undecided(nodes: Seq<NodeModel>, statuses: StatusModel) -> nat
    decreases nodes.len(),
{
    if nodes.len() == 0 {
        0
    } else {
        undecided(nodes.drop_last(), statuses) + if statuses.contains_key(nodes.last().id) {
            0nat
        } else {
            1nat
        }
    }
}

/// One map of statuses carries another on: it keeps every status of it.
pub open spec fn carries_on(before: StatusModel, after: StatusModel) -> bool {
    forall|k: Seq<char>| #[trigger]
        before.contains_key(k) ==> after.contains_key(k) && after[k] == before[k]
}

proof fn lemma_undecided_falls(nodes: Seq<NodeModel>, before: StatusModel, after: StatusModel)
    requires
        carries_on(before, after),
    ensures
        undecided(nodes, after) <= undecided(nodes, before),
        (exists|i: int|
            0 <= i < nodes.len() && !before.contains_key(#[trigger] nodes[i].id)
                && after.contains_key(nodes[i].id)) ==> undecided(nodes, after) < undecided(
            nodes,
            before,
        ),
    decreases nodes.len(),
{
    if nodes.len() > 0 {
        let rest = nodes.drop_last();
        lemma_undecided_falls(rest, before, after);
        if exists|i: int|
            0 <= i < nodes.len() && !before.contains_key(#[trigger] nodes[i].id)
                && after.contains_key(nodes[i].id) {
            let i = choose|i: int|
                0 <= i < nodes.len() && !before.contains_key(#[trigger] nodes[i].id)
                    && after.contains_key(nodes[i].id);
            if i < rest.len() {
                assert(rest[i] == nodes[i]);
            }
        }
    }
}

/// Every status of a map is its node's own, and every node something stands for
/// has one.
spec fn sound(
    graph: Map<Seq<char>, NodeModel>,
    recorded: StatusModel,
    resolved: StatusModel,
    statuses: StatusModel,
) -> bool {
    &&& forall|k: Seq<char>| #[trigger]
        statuses.contains_key(k) ==> graph.contains_key(k) && statuses[k] == status_of(
            graph,
            recorded,
            resolved,
            k,
        ) && (standing(graph[k], recorded) is None ==> statuses[k] != NodeStatus::Pending)
    &&& forall|k: Seq<char>| #[trigger]
        graph.contains_key(k) && standing(graph[k], recorded) is Some ==> statuses.contains_key(k)
}

/// A node without a status that depends on a failure is skipped.
proof fn lemma_failure_skips(
    graph: Map<Seq<char>, NodeModel>,
    recorded: StatusModel,
    resolved: StatusModel,
    statuses: StatusModel,
    id: Seq<char>,
)
    requires
        sound(graph, recorded, resolved, statuses),
        graph.contains_key(id),
        standing(graph[id], recorded) is None,
        bears(graph, graph[id], statuses, resolved, Bearing::Fails),
    ensures
        skipped(graph, recorded, resolved, id),
{
    let node = graph[id];
    let d = choose|d: int|
        0 <= d < node.deps.len() && bearing(graph, statuses, resolved, #[trigger] node.deps[d])
            == Bearing::Fails;
    let dep = node.deps[d];
    if fails_outright(graph, recorded, resolved, dep) {
        assert(skipped_within(graph, recorded, resolved, id, 0));
    } else {
        assert(skipped(graph, recorded, resolved, dep));
        let n = choose|n: nat| #[trigger] skipped_within(graph, recorded, resolved, dep, n);
        assert(skipped_within(graph, recorded, resolved, id, n + 1));
    }
}

/// Once no node without a status depends on a failure, every skipped node has its
/// status.
proof fn lemma_skips_are_found(
    graph: Map<Seq<char>, NodeModel>,
    recorded: StatusModel,
    resolved: StatusModel,
    statuses: StatusModel,
    id: Seq<char>,
    n: nat,
)
    requires
        sound(graph, recorded, resolved, statuses),
        forall|k: Seq<char>| #[trigger]
            graph.contains_key(k) && !statuses.contains_key(k) ==> !bears(
                graph,
                graph[k],
                statuses,
                resolved,
                Bearing::Fails,
            ),
        skipped_within(graph, recorded, resolved, id, n),
    ensures
        statuses.contains_key(id),
    decreases n,
{
    let node = graph[id];
    let d = choose|d: int|
        0 <= d < node.deps.len() && {
            let dep = #[trigger] node.deps[d];
            ||| fails_outright(graph, recorded, resolved, dep)
            ||| n > 0 && !crossdag::reference(dep) && skipped_within(
                graph,
                recorded,
                resolved,
                dep,
                (n - 1) as nat,
            )
        };
    let dep = node.deps[d];
    if !fails_outright(graph, recorded, resolved, dep) {
        lemma_skips_are_found(graph, recorded, resolved, statuses, dep, (n - 1) as nat);
        assert(skipped(graph, recorded, resolved, dep));
    } else if !crossdag::reference(dep) {
        assert(statuses.contains_key(dep));
    }
    assert(bearing(graph, statuses, resolved, node.deps[d]) == Bearing::Fails);
    assert(bears(graph, node, statuses, resolved, Bearing::Fails));
}

/// A node without a status that depends on a hold and on no failure is blocked.
proof fn lemma_hold_blocks(
    graph: Map<Seq<char>, NodeModel>,
    recorded: StatusModel,
    resolved: StatusModel,
    statuses: StatusModel,
    id: Seq<char>,
)
    requires
        sound(graph, recorded, resolved, statuses),
        graph.contains_key(id),
        standing(graph[id], recorded) is None,
        !skipped(graph, recorded, resolved, id),
        bears(graph, graph[id], statuses, resolved, Bearing::Gates),
    ensures
        blocked(graph, recorded, resolved, id),
{
    let node = graph[id];
    let d = choose|d: int|
        0 <= d < node.deps.len() && bearing(graph, statuses, resolved, #[trigger] node.deps[d])
            == Bearing::Gates;
    let dep = node.deps[d];
    if holds_outright(graph, recorded, resolved, dep) {
        assert(blocked_within(graph, recorded, resolved, id, 0));
    } else {
        assert(blocked(graph, recorded, resolved, dep));
        let n = choose|n: nat| #[trigger] blocked_within(graph, recorded, resolved, dep, n);
        assert(blocked_within(graph, recorded, resolved, id, n + 1));
    }
}

/// A node whose dependencies are all clear is neither skipped nor blocked.
proof fn lemma_clear_is_free(
    graph: Map<Seq<char>, NodeModel>,
    recorded: StatusModel,
    resolved: StatusModel,
    id: Seq<char>,
)
    requires
        graph.contains_key(id),
        all_clear(graph, recorded, resolved, graph[id]),
    ensures
        !skipped(graph, recorded, resolved, id),
        !blocked(graph, recorded, resolved, id),
{
    let node = graph[id];
    assert forall|n: nat| !#[trigger] skipped_within(graph, recorded, resolved, id, n) by {
        if skipped_within(graph, recorded, resolved, id, n) {
            let d = choose|d: int|
                0 <= d < node.deps.len() && {
                    let dep = #[trigger] node.deps[d];
                    ||| fails_outright(graph, recorded, resolved, dep)
                    ||| n > 0 && !crossdag::reference(dep) && skipped_within(
                        graph,
                        recorded,
                        resolved,
                        dep,
                        (n - 1) as nat,
                    )
                };
            assert(is_clear(graph, recorded, resolved, node.deps[d]));
        }
    }
    assert forall|n: nat| !#[trigger] blocked_within(graph, recorded, resolved, id, n) by {
        if blocked_within(graph, recorded, resolved, id, n) {
            let d = choose|d: int|
                0 <= d < node.deps.len() && {
                    let dep = #[trigger] node.deps[d];
                    ||| holds_outright(graph, recorded, resolved, dep)
                    ||| n > 0 && !crossdag::reference(dep) && blocked_within(
                        graph,
                        recorded,
                        resolved,
                        dep,
                        (n - 1) as nat,
                    )
                };
            assert(is_clear(graph, recorded, resolved, node.deps[d]));
        }
    }
}

/// What a dependency says against statuses that are the nodes' own says it of
/// what stands: only what stands makes it clear.
proof fn lemma_clear_of_statuses(
    graph: Map<Seq<char>, NodeModel>,
    recorded: StatusModel,
    resolved: StatusModel,
    statuses: StatusModel,
    dep: Seq<char>,
)
    requires
        sound(graph, recorded, resolved, statuses),
    ensures
        bearing(graph, statuses, resolved, dep) == Bearing::Clear <==> is_clear(
            graph,
            recorded,
            resolved,
            dep,
        ),
{
    if !crossdag::reference(dep) && graph.contains_key(dep) {
        if standing(graph[dep], recorded) is Some {
            assert(statuses.contains_key(dep));
        }
    }
}

/// Every dependency of a node says it is clear exactly when every one is.
proof fn lemma_all_clear(
    graph: Map<Seq<char>, NodeModel>,
    recorded: StatusModel,
    resolved: StatusModel,
    statuses: StatusModel,
    node: NodeModel,
)
    requires
        sound(graph, recorded, resolved, statuses),
    ensures
        all_clear(graph, recorded, resolved, node) <==> !bears(
            graph,
            node,
            statuses,
            resolved,
            Bearing::Fails,
        ) && !bears(graph, node, statuses, resolved, Bearing::Gates) && !bears(
            graph,
            node,
            statuses,
            resolved,
            Bearing::Open,
        ),
{
    assert forall|d: int| 0 <= d < node.deps.len() implies (bearing(
        graph,
        statuses,
        resolved,
        #[trigger] node.deps[d],
    ) == Bearing::Clear <==> is_clear(graph, recorded, resolved, node.deps[d])) by {
        lemma_clear_of_statuses(graph, recorded, resolved, statuses, node.deps[d]);
    }
    if !bears(graph, node, statuses, resolved, Bearing::Fails) && !bears(
        graph,
        node,
        statuses,
        resolved,
        Bearing::Gates,
    ) && !bears(graph, node, statuses, resolved, Bearing::Open) {
        assert forall|d: int| 0 <= d < node.deps.len() implies is_clear(
            graph,
            recorded,
            resolved,
            #[trigger] node.deps[d],
        ) by {
            match bearing(graph, statuses, resolved, node.deps[d]) {
                Bearing::Clear => {},
                Bearing::Fails => {
                    assert(bears(graph, node, statuses, resolved, Bearing::Fails));
                },
                Bearing::Gates => {
                    assert(bears(graph, node, statuses, resolved, Bearing::Gates));
                },
                Bearing::Open => {
                    assert(bears(graph, node, statuses, resolved, Bearing::Open));
                },
            }
        }
    }
}

/// Once every skipped node has its status, what a node is eligible for is its own
/// status.
proof fn lemma_eligible_is_own(
    graph: Map<Seq<char>, NodeModel>,
    recorded: StatusModel,
    resolved: StatusModel,
    statuses: StatusModel,
    id: Seq<char>,
)
    requires
        sound(graph, recorded, resolved, statuses),
        graph.contains_key(id),
        standing(graph[id], recorded) is None,
        !skipped(graph, recorded, resolved, id),
        eligible(graph, graph[id], statuses, resolved) is Some,
    ensures
        eligible(graph, graph[id], statuses, resolved) == Some(
            status_of(graph, recorded, resolved, id),
        ),
        status_of(graph, recorded, resolved, id) != NodeStatus::Pending,
{
    let node = graph[id];
    if bears(graph, node, statuses, resolved, Bearing::Fails) {
        lemma_failure_skips(graph, recorded, resolved, statuses, id);
    } else if bears(graph, node, statuses, resolved, Bearing::Gates) {
        lemma_hold_blocks(graph, recorded, resolved, statuses, id);
    } else {
        lemma_all_clear(graph, recorded, resolved, statuses, node);
        lemma_clear_is_free(graph, recorded, resolved, id);
    }
}

/// Once no node without a status is eligible for one, every blocked node has its
/// status.
proof fn lemma_holds_are_found(
    graph: Map<Seq<char>, NodeModel>,
    recorded: StatusModel,
    resolved: StatusModel,
    statuses: StatusModel,
    id: Seq<char>,
    n: nat,
)
    requires
        sound(graph, recorded, resolved, statuses),
        forall|k: Seq<char>| #[trigger]
            graph.contains_key(k) && !statuses.contains_key(k) ==> eligible(
                graph,
                graph[k],
                statuses,
                resolved,
            ) is None,
        blocked_within(graph, recorded, resolved, id, n),
    ensures
        statuses.contains_key(id),
    decreases n,
{
    let node = graph[id];
    let d = choose|d: int|
        0 <= d < node.deps.len() && {
            let dep = #[trigger] node.deps[d];
            ||| holds_outright(graph, recorded, resolved, dep)
            ||| n > 0 && !crossdag::reference(dep) && blocked_within(
                graph,
                recorded,
                resolved,
                dep,
                (n - 1) as nat,
            )
        };
    let dep = node.deps[d];
    if !holds_outright(graph, recorded, resolved, dep) {
        lemma_holds_are_found(graph, recorded, resolved, statuses, dep, (n - 1) as nat);
        assert(blocked(graph, recorded, resolved, dep));
    } else if !crossdag::reference(dep) && standing(graph[dep], recorded) is None {
        lemma_all_clear(graph, recorded, resolved, statuses, graph[dep]);
        lemma_clear_is_free(graph, recorded, resolved, dep);
        assert(statuses.contains_key(dep));
    } else if !crossdag::reference(dep) {
        assert(statuses.contains_key(dep));
    }
    assert(bearing(graph, statuses, resolved, node.deps[d]) == Bearing::Gates);
    assert(bears(graph, node, statuses, resolved, Bearing::Gates));
}

/// Once no node without a status is eligible for one, a node without a status is
/// pending.
proof fn lemma_the_rest_is_pending(
    graph: Map<Seq<char>, NodeModel>,
    recorded: StatusModel,
    resolved: StatusModel,
    statuses: StatusModel,
    id: Seq<char>,
)
    requires
        sound(graph, recorded, resolved, statuses),
        forall|k: Seq<char>| #[trigger]
            graph.contains_key(k) && !statuses.contains_key(k) ==> eligible(
                graph,
                graph[k],
                statuses,
                resolved,
            ) is None,
        graph.contains_key(id),
        !statuses.contains_key(id),
    ensures
        status_of(graph, recorded, resolved, id) == NodeStatus::Pending,
{
    assert(standing(graph[id], recorded) is None);
    if skipped(graph, recorded, resolved, id) {
        let n = choose|n: nat| #[trigger] skipped_within(graph, recorded, resolved, id, n);
        lemma_skips_are_found(graph, recorded, resolved, statuses, id, n);
    }
    if blocked(graph, recorded, resolved, id) {
        let n = choose|n: nat| #[trigger] blocked_within(graph, recorded, resolved, id, n);
        lemma_holds_are_found(graph, recorded, resolved, statuses, id, n);
    }
    lemma_all_clear(graph, recorded, resolved, statuses, graph[id]);
}

/// Whether some dependency of a node failed or was skipped.
fn depends_on_failure(
    graph: &Graph,
    node: &Node,
    statuses: &Statuses,
    resolved: &Statuses,
) -> (r: bool)
    requires
        graph.wf(),
        statuses.wf(),
        resolved.wf(),
    ensures
        r == bears(graph@, node@, statuses@, resolved@, Bearing::Fails),
{
    match eligibility(graph, node, statuses, resolved) {
        Some(status) => status == NodeStatus::Skipped,
        None => false,
    }
}

/// The statuses nothing has to be derived for: a park, and what was recorded.
fn what_stands(graph: &Graph, recorded: &Statuses, Ghost(resolved): Ghost<StatusModel>) -> (r:
    Statuses)
    requires
        graph.wf(),
        recorded.wf(),
    ensures
        r.wf(),
        sound(graph@, recorded@, resolved, r@),
        forall|k: Seq<char>| #[trigger]
            r@.contains_key(k) ==> standing(graph@[k], recorded@) is Some,
{
    let list = graph.iter();
    let ghost nodes = graph.nodes();
    let ghost order = graph.order();
    let mut statuses: Statuses = NameMap::new();
    proof {
        graph.lemma_views();
    }
    let mut i: usize = 0;
    while i < list.len()
        invariant
            i <= list@.len(),
            node_models(list@) == nodes,
            arranged(graph@, order, nodes),
            recorded.wf(),
            statuses.wf(),
            forall|k: Seq<char>| #[trigger]
                statuses@.contains_key(k) ==> graph@.contains_key(k) && standing(
                    graph@[k],
                    recorded@,
                ) == Some(statuses@[k]),
            forall|j: int|
                0 <= j < i && standing(#[trigger] nodes[j], recorded@) is Some
                    ==> statuses@.contains_key(nodes[j].id),
        decreases list@.len() - i,
    {
        let node = &list[i];
        assert(nodes[i as int] == node@);
        assert(graph@[order[i as int]] == node@);
        if node.parked {
            statuses.insert(node.id.clone(), NodeStatus::Parked);
        } else if let Some(status) = recorded.get(node.id.as_str()) {
            let status: NodeStatus = *status;
            if status != NodeStatus::Blocked && status != NodeStatus::Skipped {
                statuses.insert(node.id.clone(), status);
            }
        }
        i += 1;
    }
    proof {
        assert forall|k: Seq<char>| #[trigger]
            graph@.contains_key(k) && standing(graph@[k], recorded@) is Some implies
            statuses@.contains_key(k) by {
            let j = choose|j: int| 0 <= j < order.len() && order[j] == k;
            assert(nodes[j].id == order[j]);
        }
    }
    statuses
}

/// Every node that a failure lies behind is skipped: settled before anything is
/// held, since a failure outranks a hold wherever both lie behind a node.
fn settle_skips(graph: &Graph, statuses: &mut Statuses, resolved: &Statuses, Ghost(recorded):
    Ghost<StatusModel>)
    requires
        graph.wf(),
        old(statuses).wf(),
        resolved.wf(),
        sound(graph@, recorded, resolved@, old(statuses)@),
    ensures
        final(statuses).wf(),
        sound(graph@, recorded, resolved@, final(statuses)@),
        forall|k: Seq<char>|
            skipped(graph@, recorded, resolved@, k) ==> #[trigger] final(statuses)@.contains_key(k),
{
    let list = graph.iter();
    let ghost nodes = graph.nodes();
    let ghost order = graph.order();
    proof {
        graph.lemma_views();
    }
    let mut changed: bool = true;
    while changed
        invariant
            graph.wf(),
            resolved.wf(),
            statuses.wf(),
            node_models(list@) == nodes,
            arranged(graph@, order, nodes),
            sound(graph@, recorded, resolved@, statuses@),
            !changed ==> forall|j: int|
                0 <= j < nodes.len() && !statuses@.contains_key((#[trigger] nodes[j]).id) ==> !bears(
                    graph@,
                    nodes[j],
                    statuses@,
                    resolved@,
                    Bearing::Fails,
                ),
        decreases
            (if changed {
                undecided(nodes, statuses@) + 1
            } else {
                0
            }),
    {
        changed = false;
        let ghost before = statuses@;
        let mut i: usize = 0;
        while i < list.len()
            invariant
                i <= list@.len(),
                graph.wf(),
                resolved.wf(),
                statuses.wf(),
                node_models(list@) == nodes,
                arranged(graph@, order, nodes),
                sound(graph@, recorded, resolved@, statuses@),
                carries_on(before, statuses@),
                changed ==> exists|j: int|
                    0 <= j < nodes.len() && !before.contains_key(#[trigger] nodes[j].id)
                        && statuses@.contains_key(nodes[j].id),
                !changed ==> statuses@ == before,
                !changed ==> forall|j: int|
                    0 <= j < i && !statuses@.contains_key((#[trigger] nodes[j]).id) ==> !bears(
                        graph@,
                        nodes[j],
                        statuses@,
                        resolved@,
                        Bearing::Fails,
                    ),
            decreases list@.len() - i,
        {
            let node = &list[i];
            assert(nodes[i as int] == node@);
            assert(graph@[order[i as int]] == node@);
            if !statuses.contains(node.id.as_str()) && depends_on_failure(
                graph,
                node,
                statuses,
                resolved,
            ) {
                proof {
                    assert(standing(graph@[node@.id], recorded) is None);
                    lemma_failure_skips(graph@, recorded, resolved@, statuses@, node@.id);
                    assert(!before.contains_key(nodes[i as int].id));
                }
                let ghost was = statuses@;
                statuses.insert(node.id.clone(), NodeStatus::Skipped);
                changed = true;
                proof {
                    assert(statuses@.contains_key(nodes[i as int].id));
                    assert(statuses@ =~= was.insert(node@.id, NodeStatus::Skipped));
                }
            }
            i += 1;
        }
        proof {
            lemma_undecided_falls(nodes, before, statuses@);
        }
    }
    proof {
        assert forall|k: Seq<char>| #[trigger]
            graph@.contains_key(k) && !statuses@.contains_key(k) implies !bears(
            graph@,
            graph@[k],
            statuses@,
            resolved@,
            Bearing::Fails,
        ) by {
            let j = choose|j: int| 0 <= j < order.len() && order[j] == k;
            assert(nodes[j].id == order[j]);
        }
        assert forall|k: Seq<char>| skipped(graph@, recorded, resolved@, k) implies #[trigger]
            statuses@.contains_key(k) by {
            let n = choose|n: nat| #[trigger] skipped_within(graph@, recorded, resolved@, k, n);
            lemma_skips_are_found(graph@, recorded, resolved@, statuses@, k, n);
        }
    }
}

/// Every node that is eligible for a status, once the skips are settled, has it.
fn settle_the_eligible(graph: &Graph, statuses: &mut Statuses, resolved: &Statuses, Ghost(
    recorded,
): Ghost<StatusModel>)
    requires
        graph.wf(),
        old(statuses).wf(),
        resolved.wf(),
        sound(graph@, recorded, resolved@, old(statuses)@),
        forall|k: Seq<char>|
            skipped(graph@, recorded, resolved@, k) ==> #[trigger] old(statuses)@.contains_key(k),
    ensures
        final(statuses).wf(),
        sound(graph@, recorded, resolved@, final(statuses)@),
        forall|k: Seq<char>| #[trigger]
            graph@.contains_key(k) && !final(statuses)@.contains_key(k) ==> eligible(
                graph@,
                graph@[k],
                final(statuses)@,
                resolved@,
            ) is None,
{
    let list = graph.iter();
    let ghost nodes = graph.nodes();
    let ghost order = graph.order();
    proof {
        graph.lemma_views();
    }
    let mut changed: bool = true;
    while changed
        invariant
            graph.wf(),
            resolved.wf(),
            statuses.wf(),
            node_models(list@) == nodes,
            arranged(graph@, order, nodes),
            sound(graph@, recorded, resolved@, statuses@),
            forall|k: Seq<char>|
                skipped(graph@, recorded, resolved@, k) ==> #[trigger] statuses@.contains_key(k),
            !changed ==> forall|j: int|
                0 <= j < nodes.len() && !statuses@.contains_key((#[trigger] nodes[j]).id)
                    ==> eligible(graph@, nodes[j], statuses@, resolved@) is None,
        decreases
            (if changed {
                undecided(nodes, statuses@) + 1
            } else {
                0
            }),
    {
        changed = false;
        let ghost before = statuses@;
        let mut i: usize = 0;
        while i < list.len()
            invariant
                i <= list@.len(),
                graph.wf(),
                resolved.wf(),
                statuses.wf(),
                node_models(list@) == nodes,
                arranged(graph@, order, nodes),
                sound(graph@, recorded, resolved@, statuses@),
                forall|k: Seq<char>|
                    skipped(graph@, recorded, resolved@, k) ==> #[trigger] statuses@.contains_key(
                        k,
                    ),
                carries_on(before, statuses@),
                changed ==> exists|j: int|
                    0 <= j < nodes.len() && !before.contains_key(#[trigger] nodes[j].id)
                        && statuses@.contains_key(nodes[j].id),
                !changed ==> statuses@ == before,
                !changed ==> forall|j: int|
                    0 <= j < i && !statuses@.contains_key((#[trigger] nodes[j]).id) ==> eligible(
                        graph@,
                        nodes[j],
                        statuses@,
                        resolved@,
                    ) is None,
            decreases list@.len() - i,
        {
            let node = &list[i];
            assert(nodes[i as int] == node@);
            assert(graph@[order[i as int]] == node@);
            if !statuses.contains(node.id.as_str()) {
                if let Some(status) = eligibility(graph, node, statuses, resolved) {
                    proof {
                        assert(standing(graph@[node@.id], recorded) is None);
                        lemma_eligible_is_own(graph@, recorded, resolved@, statuses@, node@.id);
                        assert(!before.contains_key(nodes[i as int].id));
                    }
                    let ghost was = statuses@;
                    statuses.insert(node.id.clone(), status);
                    changed = true;
                    proof {
                        assert(statuses@.contains_key(nodes[i as int].id));
                        assert(statuses@ =~= was.insert(node@.id, status));
                    }
                }
            }
            i += 1;
        }
        proof {
            lemma_undecided_falls(nodes, before, statuses@);
        }
    }
    proof {
        assert forall|k: Seq<char>| #[trigger]
            graph@.contains_key(k) && !statuses@.contains_key(k) implies eligible(
            graph@,
            graph@[k],
            statuses@,
            resolved@,
        ) is None by {
            let j = choose|j: int| 0 <= j < order.len() && order[j] == k;
            assert(nodes[j].id == order[j]);
        }
    }
}

/// Derive every node's status from the graph and what has already settled.
///
/// `recorded` holds only the statuses the journal wrote, and `resolved` the
/// statuses of the references into other runs that resolved. Everything else —
/// `ready`, `pending`, and the two gates `blocked` and `skipped` — is computed
/// here against the current graph, so an edit that changes eligibility takes
/// effect on the same pass. A plan promises no order of its nodes, and none is
/// read: a node behind both a failure and a hold is skipped.
pub fn derive(graph: &Graph, recorded: &Statuses, resolved: &Statuses) -> (r: Statuses)
    requires
        graph.wf(),
        recorded.wf(),
        resolved.wf(),
    ensures
        r.wf(),
        r@ == derived(graph@, recorded@, resolved@),
{
    let mut statuses: Statuses = what_stands(graph, recorded, Ghost(resolved@));
    settle_skips(graph, &mut statuses, resolved, Ghost(recorded@));
    settle_the_eligible(graph, &mut statuses, resolved, Ghost(recorded@));
    let list = graph.iter();
    let ghost nodes = graph.nodes();
    let ghost order = graph.order();
    let ghost settled = statuses@;
    proof {
        graph.lemma_views();
    }
    // Anything still unresolved has a dependency that has not settled.
    let mut i: usize = 0;
    while i < list.len()
        invariant
            i <= list@.len(),
            node_models(list@) == nodes,
            arranged(graph@, order, nodes),
            statuses.wf(),
            sound(graph@, recorded@, resolved@, settled),
            forall|k: Seq<char>| #[trigger]
                graph@.contains_key(k) && !settled.contains_key(k) ==> eligible(
                    graph@,
                    graph@[k],
                    settled,
                    resolved@,
                ) is None,
            forall|k: Seq<char>| #[trigger]
                statuses@.contains_key(k) ==> graph@.contains_key(k) && statuses@[k] == status_of(
                    graph@,
                    recorded@,
                    resolved@,
                    k,
                ),
            carries_on(settled, statuses@),
            forall|j: int| 0 <= j < i ==> statuses@.contains_key((#[trigger] nodes[j]).id),
        decreases list@.len() - i,
    {
        let node = &list[i];
        assert(nodes[i as int] == node@);
        assert(graph@[order[i as int]] == node@);
        if !statuses.contains(node.id.as_str()) {
            proof {
                lemma_the_rest_is_pending(graph@, recorded@, resolved@, settled, node@.id);
            }
            statuses.insert(node.id.clone(), NodeStatus::Pending);
        }
        i += 1;
    }
    proof {
        assert forall|k: Seq<char>| #[trigger] graph@.contains_key(k) implies statuses@.contains_key(
            k,
        ) by {
            let j = choose|j: int| 0 <= j < order.len() && order[j] == k;
            assert(nodes[j].id == order[j]);
        }
        assert(statuses@ =~= derived(graph@, recorded@, resolved@));
    }
    statuses
}

/// The dependencies that failed or were skipped, with their statuses, in the
/// order they are declared.
pub open spec fn failing_deps(
    deps: Seq<Seq<char>>,
    statuses: StatusModel,
) -> Seq<(Seq<char>, NodeStatus)>
    decreases deps.len(),
{
    if deps.len() == 0 {
        Seq::empty()
    } else {
        let before = failing_deps(deps.drop_last(), statuses);
        let dep = deps.last();
        if statuses.contains_key(dep) && skips(statuses[dep]) {
            before.push((dep, statuses[dep]))
        } else {
            before
        }
    }
}

/// What `skipped_by` names: nothing unless the node is skipped.
pub open spec fn skip_causes(
    graph: Map<Seq<char>, NodeModel>,
    statuses: StatusModel,
    id: Seq<char>,
) -> Seq<(Seq<char>, NodeStatus)> {
    if statuses.contains_key(id) && statuses[id] == NodeStatus::Skipped && graph.contains_key(id) {
        failing_deps(graph[id].deps, statuses)
    } else {
        Seq::empty()
    }
}

/// Pairs of names and statuses, as contracts speak of them.
pub open spec fn named(list: Seq<(String, NodeStatus)>) -> Seq<(Seq<char>, NodeStatus)> {
    list.map_values(|p: (String, NodeStatus)| (p.0@, p.1))
}

/// The dependencies whose own failure or skip is why `id` derived `skipped`, in
/// the order the node declared them. Empty unless `id` is skipped.
pub fn skipped_by(graph: &Graph, statuses: &Statuses, id: &str) -> (r: Vec<(String, NodeStatus)>)
    requires
        graph.wf(),
        statuses.wf(),
    ensures
        named(r@) == skip_causes(graph@, statuses@, id@),
{
    let mut out: Vec<(String, NodeStatus)> = Vec::new();
    let skipped: bool = match statuses.get(id) {
        Some(status) => *status == NodeStatus::Skipped,
        None => false,
    };
    if !skipped {
        assert(named(out@) =~= skip_causes(graph@, statuses@, id@));
        return out;
    }
    let node: &Node = match graph.get(id) {
        Some(node) => node,
        None => {
            assert(named(out@) =~= skip_causes(graph@, statuses@, id@));
            return out;
        },
    };
    let mut d: usize = 0;
    assert(named(out@) =~= failing_deps(node@.deps.take(0), statuses@));
    while d < node.deps.len()
        invariant
            d <= node.deps@.len(),
            statuses.wf(),
            named(out@) == failing_deps(node@.deps.take(d as int), statuses@),
        decreases node.deps@.len() - d,
    {
        let dep = &node.deps[d];
        proof {
            assert(node@.deps[d as int] == dep@);
            assert(node@.deps.take(d + 1).drop_last() =~= node@.deps.take(d as int));
        }
        let ghost was = out@;
        if let Some(status) = statuses.get(dep.as_str()) {
            let status: NodeStatus = *status;
            if skips_dependents(status) {
                out.push((dep.clone(), status));
                assert(named(out@) =~= named(was).push((dep@, status)));
            }
        }
        d += 1;
    }
    assert(node@.deps.take(node.deps@.len() as int) =~= node@.deps);
    out
}

/// Some node of a map has one of these statuses.
pub open spec fn some_skips(statuses: StatusModel) -> bool {
    exists|k: Seq<char>| #[trigger] statuses.contains_key(k) && skips(statuses[k])
}

/// Some node of a map is held.
pub open spec fn some_gates(statuses: StatusModel) -> bool {
    exists|k: Seq<char>| #[trigger] statuses.contains_key(k) && gates(statuses[k])
}

/// Every node of a map is done.
pub open spec fn all_done(statuses: StatusModel) -> bool {
    forall|k: Seq<char>| #[trigger]
        statuses.contains_key(k) ==> statuses[k] == NodeStatus::Done
}

/// How a graph with these statuses settled.
pub open spec fn settled_state(statuses: StatusModel) -> GraphState {
    if some_skips(statuses) {
        GraphState::Failed
    } else if !some_gates(statuses) && all_done(statuses) {
        GraphState::Complete
    } else {
        GraphState::Waiting
    }
}

/// How a graph with these statuses settled.
pub fn state_of(statuses: &Statuses) -> (r: GraphState)
    requires
        statuses.wf(),
    ensures
        r == settled_state(statuses@),
{
    let list = statuses.values();
    let mut gated: bool = false;
    let mut done: bool = true;
    proof {
        statuses.lemma_views();
    }
    let ghost order = statuses.order();
    let mut i: usize = 0;
    while i < list.len()
        invariant
            i <= list@.len(),
            list@ == statuses.listed(),
            order == statuses.order(),
            order.len() == list@.len(),
            forall|j: int|
                #![trigger order[j]]
                0 <= j < order.len() ==> statuses@.contains_key(order[j]) && statuses@[order[j]]
                    == list@[j],
            forall|j: int| 0 <= j < i ==> !skips(#[trigger] list@[j]),
            gated == exists|j: int| 0 <= j < i && gates(#[trigger] list@[j]),
            done == forall|j: int| 0 <= j < i ==> #[trigger] list@[j] == NodeStatus::Done,
        decreases list@.len() - i,
    {
        let status: NodeStatus = list[i];
        if skips_dependents(status) {
            assert(statuses@.contains_key(order[i as int]));
            return GraphState::Failed;
        }
        match status {
            NodeStatus::Waiting | NodeStatus::Blocked | NodeStatus::Parked
            | NodeStatus::Cancelled => {
                gated = true;
            },
            _ => {},
        }
        if status != NodeStatus::Done {
            done = false;
        }
        i += 1;
    }
    proof {
        lemma_over_values(*statuses);
        assert(!some_skips(statuses@));
        if gated {
            let j = choose|j: int| 0 <= j < list@.len() && gates(#[trigger] list@[j]);
            assert(statuses@.contains_key(order[j]));
            assert(some_gates(statuses@));
        }
        if !done {
            let j = choose|j: int|
                0 <= j < list@.len() && #[trigger] list@[j] != NodeStatus::Done;
            assert(statuses@.contains_key(order[j]));
        }
    }
    if gated {
        GraphState::Waiting
    } else if done {
        GraphState::Complete
    } else {
        GraphState::Waiting
    }
}

/// Every status of a map is one of its values.
pub proof fn lemma_over_values(statuses: Statuses)
    requires
        statuses.wf(),
    ensures
        forall|k: Seq<char>| #[trigger]
            statuses@.contains_key(k) ==> exists|j: int|
                0 <= j < statuses.listed().len() && #[trigger] statuses.listed()[j]
                    == statuses@[k],
{
    statuses.lemma_views();
    assert forall|k: Seq<char>| #[trigger] statuses@.contains_key(k) implies exists|j: int|
        0 <= j < statuses.listed().len() && #[trigger] statuses.listed()[j] == statuses@[k] by {
        let j = choose|j: int| 0 <= j < statuses.order().len() && statuses.order()[j] == k;
        assert(statuses.listed()[j] == statuses@[k]);
    }
}

/// Every node of a map has settled.
pub open spec fn all_settled(statuses: StatusModel) -> bool {
    forall|k: Seq<char>| #[trigger] statuses.contains_key(k) ==> statuses[k].settled()
}

/// Whether every node has settled, so the loop has nothing left to converge.
pub fn is_terminal(statuses: &Statuses) -> (r: bool)
    requires
        statuses.wf(),
    ensures
        r == all_settled(statuses@),
{
    let list = statuses.values();
    let mut i: usize = 0;
    proof {
        statuses.lemma_views();
        lemma_over_values(*statuses);
    }
    while i < list.len()
        invariant
            i <= list@.len(),
            list@ == statuses.listed(),
            statuses.wf(),
            forall|j: int| 0 <= j < i ==> (#[trigger] list@[j]).settled(),
        decreases list@.len() - i,
    {
        if !list[i].is_settled() {
            proof {
                statuses.lemma_views();
                assert(statuses@.contains_key(statuses.order()[i as int]));
            }
            return false;
        }
        i += 1;
    }
    true
}

/// What each ready human action unblocks, for the view that reports it.
pub fn unblocks(graph: &Graph, id: &str) -> (r: Vec<String>)
    ensures
        texts(r@) == dependents(graph.nodes(), id@),
{
    graph.dependents_of(id)
}

/// A status that follows from the statuses around it: a skip has a dependency
/// that fails it, a hold has one that gates it and none that fails it, a node
/// that is pending has one that has not settled and none that fails or gates it,
/// and anything else derived has every dependency clear.
pub open spec fn follows(
    graph: Map<Seq<char>, NodeModel>,
    node: NodeModel,
    statuses: StatusModel,
    resolved: StatusModel,
    status: NodeStatus,
) -> bool {
    let fails = bears(graph, node, statuses, resolved, Bearing::Fails);
    let held = bears(graph, node, statuses, resolved, Bearing::Gates);
    if status == NodeStatus::Skipped {
        fails
    } else if status == NodeStatus::Blocked {
        held && !fails
    } else if status == NodeStatus::Pending {
        bears(graph, node, statuses, resolved, Bearing::Open) && !held && !fails
    } else {
        &&& forall|d: int|
            0 <= d < node.deps.len() ==> bearing(
                graph,
                statuses,
                resolved,
                #[trigger] node.deps[d],
            ) == Bearing::Clear
        &&& status == (if node.kind == NodeKind::Human {
            NodeStatus::Waiting
        } else {
            NodeStatus::Ready
        })
    }
}

/// Exactly the nodes of the graph have a derived status.
pub proof fn law_every_node_has_a_status(
    graph: Map<Seq<char>, NodeModel>,
    recorded: StatusModel,
    resolved: StatusModel,
    id: Seq<char>,
)
    ensures
        derived(graph, recorded, resolved).contains_key(id) <==> graph.contains_key(id),
{
}

/// A park outranks everything, and a recorded settlement stands.
pub proof fn law_what_is_recorded_stands(
    graph: Map<Seq<char>, NodeModel>,
    recorded: StatusModel,
    resolved: StatusModel,
    id: Seq<char>,
)
    requires
        graph.contains_key(id),
        standing(graph[id], recorded) is Some,
    ensures
        derived(graph, recorded, resolved)[id] == standing(graph[id], recorded)->0,
{
}

/// What was recorded, but for the gates.
pub open spec fn without_gates(recorded: StatusModel) -> StatusModel {
    recorded.restrict(
        Set::new(
            |k: Seq<char>|
                recorded[k] != NodeStatus::Blocked && recorded[k] != NodeStatus::Skipped,
        ),
    )
}

proof fn lemma_same_standing(
    graph: Map<Seq<char>, NodeModel>,
    one: StatusModel,
    other: StatusModel,
    resolved: StatusModel,
    id: Seq<char>,
    n: nat,
)
    requires
        forall|node: NodeModel| #[trigger] standing(node, one) == standing(node, other),
    ensures
        skipped_within(graph, one, resolved, id, n) ==> skipped_within(
            graph,
            other,
            resolved,
            id,
            n,
        ),
    decreases n,
{
    if skipped_within(graph, one, resolved, id, n) {
        let d = choose|d: int|
            0 <= d < graph[id].deps.len() && {
                let dep = #[trigger] graph[id].deps[d];
                ||| fails_outright(graph, one, resolved, dep)
                ||| n > 0 && !crossdag::reference(dep) && skipped_within(
                    graph,
                    one,
                    resolved,
                    dep,
                    (n - 1) as nat,
                )
            };
        let dep = graph[id].deps[d];
        if !fails_outright(graph, one, resolved, dep) {
            lemma_same_standing(graph, one, other, resolved, dep, (n - 1) as nat);
        }
        assert(fails_outright(graph, one, resolved, dep) == fails_outright(
            graph,
            other,
            resolved,
            dep,
        ));
        assert(standing(graph[id], other) is None);
    }
}

proof fn lemma_same_skips(
    graph: Map<Seq<char>, NodeModel>,
    one: StatusModel,
    other: StatusModel,
    resolved: StatusModel,
    id: Seq<char>,
)
    requires
        forall|node: NodeModel| #[trigger] standing(node, one) == standing(node, other),
    ensures
        skipped(graph, one, resolved, id) == skipped(graph, other, resolved, id),
{
    assert forall|node: NodeModel| #[trigger] standing(node, other) == standing(node, one) by {
        assert(standing(node, one) == standing(node, other));
    }
    assert forall|n: nat|
        #![trigger skipped_within(graph, one, resolved, id, n)]
        #![trigger skipped_within(graph, other, resolved, id, n)]
        skipped_within(graph, one, resolved, id, n) == skipped_within(
            graph,
            other,
            resolved,
            id,
            n,
        ) by {
        lemma_same_standing(graph, one, other, resolved, id, n);
        lemma_same_standing(graph, other, one, resolved, id, n);
    }
}

proof fn lemma_same_holds(
    graph: Map<Seq<char>, NodeModel>,
    one: StatusModel,
    other: StatusModel,
    resolved: StatusModel,
    id: Seq<char>,
    n: nat,
)
    requires
        forall|node: NodeModel| #[trigger] standing(node, one) == standing(node, other),
    ensures
        blocked_within(graph, one, resolved, id, n) ==> blocked_within(
            graph,
            other,
            resolved,
            id,
            n,
        ),
    decreases n,
{
    if blocked_within(graph, one, resolved, id, n) {
        let d = choose|d: int|
            0 <= d < graph[id].deps.len() && {
                let dep = #[trigger] graph[id].deps[d];
                ||| holds_outright(graph, one, resolved, dep)
                ||| n > 0 && !crossdag::reference(dep) && blocked_within(
                    graph,
                    one,
                    resolved,
                    dep,
                    (n - 1) as nat,
                )
            };
        let dep = graph[id].deps[d];
        if !holds_outright(graph, one, resolved, dep) {
            lemma_same_holds(graph, one, other, resolved, dep, (n - 1) as nat);
        } else {
            lemma_same_clear(graph, one, other, resolved, graph[dep]);
            assert(standing(graph[dep], one) == standing(graph[dep], other));
            assert(holds_outright(graph, other, resolved, dep));
        }
        lemma_same_skips(graph, one, other, resolved, id);
        assert(standing(graph[id], one) == standing(graph[id], other));
    }
}

proof fn lemma_same_clear(
    graph: Map<Seq<char>, NodeModel>,
    one: StatusModel,
    other: StatusModel,
    resolved: StatusModel,
    node: NodeModel,
)
    requires
        forall|node: NodeModel| #[trigger] standing(node, one) == standing(node, other),
    ensures
        all_clear(graph, one, resolved, node) == all_clear(graph, other, resolved, node),
{
    assert forall|dep: Seq<char>|
        #![trigger is_clear(graph, one, resolved, dep)]
        #![trigger is_clear(graph, other, resolved, dep)]
        is_clear(graph, one, resolved, dep) == is_clear(graph, other, resolved, dep) by {
        assert(standing(graph[dep], one) == standing(graph[dep], other));
    }
}

/// A recorded gate is discarded and derived again: what was recorded as blocked
/// or skipped changes no status.
pub proof fn law_a_recorded_gate_is_discarded(
    graph: Map<Seq<char>, NodeModel>,
    recorded: StatusModel,
    resolved: StatusModel,
)
    ensures
        derived(graph, recorded, resolved) == derived(graph, without_gates(recorded), resolved),
{
    let other = without_gates(recorded);
    assert forall|id: Seq<char>| graph.contains_key(id) implies #[trigger] status_of(
        graph,
        recorded,
        resolved,
        id,
    ) == status_of(graph, other, resolved, id) by {
        assert forall|n: nat|
            #![trigger blocked_within(graph, recorded, resolved, id, n)]
            #![trigger blocked_within(graph, other, resolved, id, n)]
            blocked_within(graph, recorded, resolved, id, n) == blocked_within(
                graph,
                other,
                resolved,
                id,
                n,
            ) by {
            lemma_same_holds(graph, recorded, other, resolved, id, n);
            lemma_same_holds(graph, other, recorded, resolved, id, n);
        }
        lemma_same_skips(graph, recorded, other, resolved, id);
        lemma_same_clear(graph, recorded, other, resolved, graph[id]);
        assert(standing(graph[id], recorded) == standing(graph[id], other));
    }
    assert(derived(graph, recorded, resolved) =~= derived(graph, other, resolved));
}

/// Every derived status has its reason in the derived statuses themselves: a node
/// is skipped exactly when it depends on something that failed or was skipped,
/// blocked exactly when it depends on something that holds it and on nothing that
/// failed or was skipped, ready or waiting exactly when every dependency it still
/// has is done, and pending otherwise.
pub proof fn law_every_derived_status_has_its_reason(
    graph: Map<Seq<char>, NodeModel>,
    recorded: StatusModel,
    resolved: StatusModel,
    id: Seq<char>,
)
    requires
        graph.contains_key(id),
        standing(graph[id], recorded) is None,
    ensures
        ({
            let all = derived(graph, recorded, resolved);
            &&& follows(graph, graph[id], all, resolved, all[id])
            &&& all[id] == NodeStatus::Skipped <==> bears(
                graph,
                graph[id],
                all,
                resolved,
                Bearing::Fails,
            )
            &&& all[id] == NodeStatus::Blocked <==> bears(
                graph,
                graph[id],
                all,
                resolved,
                Bearing::Gates,
            ) && !bears(graph, graph[id], all, resolved, Bearing::Fails)
        }),
{
    let all = derived(graph, recorded, resolved);
    let node = graph[id];
    lemma_skips_in_the_end(graph, recorded, resolved, id);
    lemma_holds_in_the_end(graph, recorded, resolved, id);
    assert forall|d: int| 0 <= d < node.deps.len() implies (bearing(
        graph,
        all,
        resolved,
        #[trigger] node.deps[d],
    ) == Bearing::Clear <==> is_clear(graph, recorded, resolved, node.deps[d])) by {
    }
    if all_clear(graph, recorded, resolved, node) {
        lemma_clear_is_free(graph, recorded, resolved, id);
    } else {
        let d = choose|d: int|
            0 <= d < node.deps.len() && !is_clear(
                graph,
                recorded,
                resolved,
                #[trigger] node.deps[d],
            );
        match bearing(graph, all, resolved, node.deps[d]) {
            Bearing::Clear => {},
            Bearing::Fails => {
                assert(bears(graph, node, all, resolved, Bearing::Fails));
            },
            Bearing::Gates => {
                assert(bears(graph, node, all, resolved, Bearing::Gates));
            },
            Bearing::Open => {
                assert(bears(graph, node, all, resolved, Bearing::Open));
            },
        }
    }
}

/// Against the derived statuses, a node depends on a failure exactly when it is
/// skipped.
proof fn lemma_skips_in_the_end(
    graph: Map<Seq<char>, NodeModel>,
    recorded: StatusModel,
    resolved: StatusModel,
    id: Seq<char>,
)
    requires
        graph.contains_key(id),
        standing(graph[id], recorded) is None,
    ensures
        bears(graph, graph[id], derived(graph, recorded, resolved), resolved, Bearing::Fails)
            <==> skipped(graph, recorded, resolved, id),
{
    let all = derived(graph, recorded, resolved);
    let node = graph[id];
    if bears(graph, node, all, resolved, Bearing::Fails) {
        let d = choose|d: int|
            0 <= d < node.deps.len() && bearing(graph, all, resolved, #[trigger] node.deps[d])
                == Bearing::Fails;
        let dep = node.deps[d];
        if fails_outright(graph, recorded, resolved, dep) {
            assert(skipped_within(graph, recorded, resolved, id, 0));
        } else {
            assert(skipped(graph, recorded, resolved, dep));
            let n = choose|n: nat| #[trigger] skipped_within(graph, recorded, resolved, dep, n);
            assert(skipped_within(graph, recorded, resolved, id, n + 1));
        }
    }
    if skipped(graph, recorded, resolved, id) {
        let n = choose|n: nat| #[trigger] skipped_within(graph, recorded, resolved, id, n);
        let d = choose|d: int|
            0 <= d < node.deps.len() && {
                let dep = #[trigger] node.deps[d];
                ||| fails_outright(graph, recorded, resolved, dep)
                ||| n > 0 && !crossdag::reference(dep) && skipped_within(
                    graph,
                    recorded,
                    resolved,
                    dep,
                    (n - 1) as nat,
                )
            };
        let dep = node.deps[d];
        if !fails_outright(graph, recorded, resolved, dep) {
            assert(skipped(graph, recorded, resolved, dep));
        }
        assert(bearing(graph, all, resolved, node.deps[d]) == Bearing::Fails);
    }
}

/// Against the derived statuses, a node that is not skipped depends on a hold
/// exactly when it is blocked.
proof fn lemma_holds_in_the_end(
    graph: Map<Seq<char>, NodeModel>,
    recorded: StatusModel,
    resolved: StatusModel,
    id: Seq<char>,
)
    requires
        graph.contains_key(id),
        standing(graph[id], recorded) is None,
    ensures
        !skipped(graph, recorded, resolved, id) ==> (bears(
            graph,
            graph[id],
            derived(graph, recorded, resolved),
            resolved,
            Bearing::Gates,
        ) <==> blocked(graph, recorded, resolved, id)),
{
    let all = derived(graph, recorded, resolved);
    let node = graph[id];
    if !skipped(graph, recorded, resolved, id) {
        if bears(graph, node, all, resolved, Bearing::Gates) {
            let d = choose|d: int|
                0 <= d < node.deps.len() && bearing(graph, all, resolved, #[trigger] node.deps[d])
                    == Bearing::Gates;
            let dep = node.deps[d];
            if holds_outright(graph, recorded, resolved, dep) {
                assert(blocked_within(graph, recorded, resolved, id, 0));
            } else {
                assert(blocked(graph, recorded, resolved, dep));
                let n = choose|n: nat| #[trigger]
                    blocked_within(graph, recorded, resolved, dep, n);
                assert(blocked_within(graph, recorded, resolved, id, n + 1));
            }
        }
        if blocked(graph, recorded, resolved, id) {
            let n = choose|n: nat| #[trigger] blocked_within(graph, recorded, resolved, id, n);
            let d = choose|d: int|
                0 <= d < node.deps.len() && {
                    let dep = #[trigger] node.deps[d];
                    ||| holds_outright(graph, recorded, resolved, dep)
                    ||| n > 0 && !crossdag::reference(dep) && blocked_within(
                        graph,
                        recorded,
                        resolved,
                        dep,
                        (n - 1) as nat,
                    )
                };
            let dep = node.deps[d];
            if !holds_outright(graph, recorded, resolved, dep) {
                assert(blocked(graph, recorded, resolved, dep));
            } else if !crossdag::reference(dep) && standing(graph[dep], recorded) is None {
                lemma_clear_is_free(graph, recorded, resolved, dep);
            }
            assert(bearing(graph, all, resolved, node.deps[d]) == Bearing::Gates);
        }
    }
}

/// A node nothing was recorded for is ready exactly when every dependency it
/// still has is done and it is an agent's to run.
pub proof fn law_ready_exactly_when_every_dependency_is_done(
    graph: Map<Seq<char>, NodeModel>,
    recorded: StatusModel,
    resolved: StatusModel,
    id: Seq<char>,
)
    requires
        graph.contains_key(id),
        standing(graph[id], recorded) is None,
    ensures
        ({
            let all = derived(graph, recorded, resolved);
            all[id] == NodeStatus::Ready <==> graph[id].kind != NodeKind::Human && forall|d: int|
                0 <= d < graph[id].deps.len() ==> bearing(
                    graph,
                    all,
                    resolved,
                    #[trigger] graph[id].deps[d],
                ) == Bearing::Clear
        }),
{
    law_every_derived_status_has_its_reason(graph, recorded, resolved, id);
    let all = derived(graph, recorded, resolved);
    let node = graph[id];
    if forall|d: int|
        0 <= d < node.deps.len() ==> bearing(graph, all, resolved, #[trigger] node.deps[d])
            == Bearing::Clear {
        assert(!bears(graph, node, all, resolved, Bearing::Fails));
        assert(!bears(graph, node, all, resolved, Bearing::Gates));
        assert(!bears(graph, node, all, resolved, Bearing::Open));
    }
}

proof fn lemma_failing_deps(deps: Seq<Seq<char>>, statuses: StatusModel, d: int)
    requires
        0 <= d < deps.len(),
        statuses.contains_key(deps[d]),
        skips(statuses[deps[d]]),
    ensures
        failing_deps(deps, statuses).len() > 0,
    decreases deps.len(),
{
    if d < deps.len() - 1 {
        assert(deps.drop_last()[d] == deps[d]);
        lemma_failing_deps(deps.drop_last(), statuses, d);
    }
}

/// Every node that derives `skipped` names what skipped it, wherever none of its
/// own references into other runs is what failed.
pub proof fn law_every_skip_names_its_cause(
    graph: Map<Seq<char>, NodeModel>,
    recorded: StatusModel,
    resolved: StatusModel,
    id: Seq<char>,
)
    requires
        graph.contains_key(id) ==> forall|d: int|
            0 <= d < graph[id].deps.len() && crossdag::reference(#[trigger] graph[id].deps[d])
                && resolved.contains_key(graph[id].deps[d]) ==> !skips(
                resolved[graph[id].deps[d]],
            ),
    ensures
        ({
            let all = derived(graph, recorded, resolved);
            skip_causes(graph, all, id).len() > 0 <==> all.contains_key(id) && all[id]
                == NodeStatus::Skipped
        }),
{
    let all = derived(graph, recorded, resolved);
    if all.contains_key(id) && all[id] == NodeStatus::Skipped {
        law_every_derived_status_has_its_reason(graph, recorded, resolved, id);
        let node = graph[id];
        let d = choose|d: int|
            0 <= d < node.deps.len() && bearing(graph, all, resolved, #[trigger] node.deps[d])
                == Bearing::Fails;
        lemma_failing_deps(node.deps, all, d);
    }
}

/// A graph renders back as the plan it came from, where no two of its nodes have
/// the same id.
pub proof fn law_a_graph_renders_back_as_its_plan(graph: Graph, tasks: Seq<NodeModel>)
    requires
        graph.wf(),
        crate::cycle::unique_ids(tasks),
        (graph@, graph.order()) == inserted(Map::empty(), Seq::empty(), tasks),
    ensures
        graph.nodes() == tasks,
{
    graph.lemma_views();
    lemma_inserted(tasks);
    assert(graph.nodes() =~= tasks) by {
        assert forall|i: int| 0 <= i < tasks.len() implies graph.nodes()[i] == tasks[i] by {
            assert(graph.order()[i] == tasks[i].id);
        }
    }
}

proof fn lemma_inserted(tasks: Seq<NodeModel>)
    requires
        crate::cycle::unique_ids(tasks),
    ensures
        ({
            let (m, o) = inserted(Map::empty(), Seq::empty(), tasks);
            &&& o.len() == tasks.len()
            &&& forall|i: int|
                0 <= i < tasks.len() ==> #[trigger] o[i] == tasks[i].id && m.contains_key(o[i])
                    && m[o[i]] == tasks[i]
            &&& forall|k: Seq<char>| #[trigger]
                m.contains_key(k) ==> exists|i: int|
                    0 <= i < tasks.len() && #[trigger] tasks[i].id == k
        }),
    decreases tasks.len(),
{
    if tasks.len() > 0 {
        let rest = tasks.drop_last();
        let last = tasks.len() - 1;
        assert(crate::cycle::unique_ids(rest)) by {
            assert forall|i: int, j: int| 0 <= i < j < rest.len() implies #[trigger] rest[i].id
                != #[trigger] rest[j].id by {
                assert(tasks[i].id != tasks[j].id);
            }
        }
        lemma_inserted(rest);
        let (m, o) = inserted(Map::empty(), Seq::empty(), rest);
        if m.contains_key(tasks[last].id) {
            let i = choose|i: int| 0 <= i < rest.len() && #[trigger] rest[i].id == tasks[last].id;
            assert(tasks[i].id != tasks[last].id);
        }
        let (m2, o2) = inserted(Map::empty(), Seq::empty(), tasks);
        assert forall|i: int| 0 <= i < tasks.len() implies #[trigger] o2[i] == tasks[i].id
            && m2.contains_key(o2[i]) && m2[o2[i]] == tasks[i] by {
            if i < last {
                assert(o2[i] == o[i]);
                assert(rest[i] == tasks[i]);
                assert(tasks[i].id != tasks[last].id);
            }
        }
        assert forall|k: Seq<char>| #[trigger] m2.contains_key(k) implies exists|i: int|
            0 <= i < tasks.len() && #[trigger] tasks[i].id == k by {
            if m.contains_key(k) {
                let i = choose|i: int| 0 <= i < rest.len() && #[trigger] rest[i].id == k;
                assert(tasks[i].id == k);
            } else {
                assert(tasks[last].id == k);
            }
        }
    }
}

/// A graph settles complete exactly when every node is done, and failed exactly
/// when one failed or was skipped.
pub proof fn law_how_a_graph_settles(statuses: StatusModel)
    ensures
        settled_state(statuses) == GraphState::Complete <==> all_done(statuses),
        settled_state(statuses) == GraphState::Failed <==> some_skips(statuses),
        settled_state(statuses) == GraphState::Complete ==> all_settled(statuses),
{
}

/// A node the planner parked is parked whatever was recorded of it, and anything else
/// that was recorded stands, but for the two gates that are derived anew.
pub proof fn law_a_recorded_settlement_stands(
    graph: Map<Seq<char>, NodeModel>,
    recorded: StatusModel,
    resolved: StatusModel,
    id: Seq<char>,
)
    requires
        graph.contains_key(id),
    ensures
        ({
            let now = derived(graph, recorded, resolved)[id];
            let was = recorded[graph[id].id];
            &&& graph[id].parked ==> now == NodeStatus::Parked
            &&& !graph[id].parked && recorded.contains_key(graph[id].id) && was
                != NodeStatus::Blocked && was != NodeStatus::Skipped ==> now == was
        }),
{
}

/// What the status of a dependency does to a node nothing stands for, status by status.
/// One that failed or was skipped skips it. Otherwise one that is waiting, blocked, parked
/// or cancelled blocks it, as does a reference into another run that has not resolved.
/// Otherwise one that is pending, ready, running or a draft leaves it pending. Otherwise
/// every dependency it still has is done, and it is a person's turn or an agent's.
pub proof fn law_what_the_status_of_a_dependency_does(
    graph: Map<Seq<char>, NodeModel>,
    recorded: StatusModel,
    resolved: StatusModel,
    id: Seq<char>,
)
    requires
        graph.contains_key(id),
        !graph[id].parked,
        recorded.contains_key(graph[id].id) ==> recorded[graph[id].id] == NodeStatus::Blocked
            || recorded[graph[id].id] == NodeStatus::Skipped,
    ensures
        ({
            let all = derived(graph, recorded, resolved);
            let deps = graph[id].deps;
            &&& all[id] == NodeStatus::Skipped <==> exists|d: int|
                0 <= d < deps.len() && {
                    let dep = #[trigger] deps[d];
                    let at = if crossdag::reference(dep) { resolved } else { all };
                    at.contains_key(dep) && (at[dep] == NodeStatus::Failed || at[dep]
                        == NodeStatus::Skipped)
                }
            &&& all[id] == NodeStatus::Blocked <==> all[id] != NodeStatus::Skipped && exists|d: int|
                0 <= d < deps.len() && {
                    let dep = #[trigger] deps[d];
                    let at = if crossdag::reference(dep) { resolved } else { all };
                    if at.contains_key(dep) {
                        at[dep] == NodeStatus::Waiting || at[dep] == NodeStatus::Blocked || at[dep]
                            == NodeStatus::Parked || at[dep] == NodeStatus::Cancelled
                    } else {
                        crossdag::reference(dep)
                    }
                }
            &&& all[id] == NodeStatus::Pending <==> all[id] != NodeStatus::Skipped && all[id]
                != NodeStatus::Blocked && exists|d: int|
                0 <= d < deps.len() && {
                    let dep = #[trigger] deps[d];
                    let at = if crossdag::reference(dep) { resolved } else { all };
                    at.contains_key(dep) && (at[dep] == NodeStatus::Pending || at[dep]
                        == NodeStatus::Ready || at[dep] == NodeStatus::Running || at[dep]
                        == NodeStatus::CompleteDraft)
                }
            &&& all[id] == NodeStatus::Ready || all[id] == NodeStatus::Waiting <==> forall|d: int|
                0 <= d < deps.len() ==> {
                    let dep = #[trigger] deps[d];
                    if crossdag::reference(dep) {
                        resolved.contains_key(dep) && resolved[dep] == NodeStatus::Done
                    } else {
                        graph.contains_key(dep) ==> all[dep] == NodeStatus::Done
                    }
                }
            &&& all[id] == NodeStatus::Waiting ==> graph[id].kind == NodeKind::Human
            &&& all[id] == NodeStatus::Ready ==> graph[id].kind == NodeKind::Agent
        }),
{
    let all = derived(graph, recorded, resolved);
    let deps = graph[id].deps;
    law_every_derived_status_has_its_reason(graph, recorded, resolved, id);
    assert forall|d: int| 0 <= d < deps.len() implies (match bearing(
        graph,
        all,
        resolved,
        #[trigger] deps[d],
    ) {
        Bearing::Fails => {
            let at = if crossdag::reference(deps[d]) { resolved } else { all };
            at.contains_key(deps[d]) && (at[deps[d]] == NodeStatus::Failed || at[deps[d]]
                == NodeStatus::Skipped)
        },
        Bearing::Gates => {
            let at = if crossdag::reference(deps[d]) { resolved } else { all };
            if at.contains_key(deps[d]) {
                at[deps[d]] == NodeStatus::Waiting || at[deps[d]] == NodeStatus::Blocked
                    || at[deps[d]] == NodeStatus::Parked || at[deps[d]] == NodeStatus::Cancelled
            } else {
                crossdag::reference(deps[d])
            }
        },
        Bearing::Open => {
            let at = if crossdag::reference(deps[d]) { resolved } else { all };
            at.contains_key(deps[d]) && (at[deps[d]] == NodeStatus::Pending || at[deps[d]]
                == NodeStatus::Ready || at[deps[d]] == NodeStatus::Running || at[deps[d]]
                == NodeStatus::CompleteDraft)
        },
        Bearing::Clear => if crossdag::reference(deps[d]) {
            resolved.contains_key(deps[d]) && resolved[deps[d]] == NodeStatus::Done
        } else {
            graph.contains_key(deps[d]) ==> all[deps[d]] == NodeStatus::Done
        },
    }) by {}
}

/// A hold recorded of a dependency blocks the node that declares it, unless a failure
/// lies behind that node: a person's turn, a park and a cancelled dispatch alike.
pub proof fn law_a_recorded_hold_blocks(
    graph: Map<Seq<char>, NodeModel>,
    recorded: StatusModel,
    resolved: StatusModel,
    id: Seq<char>,
    d: int,
)
    requires
        graph.contains_key(id),
        !graph[id].parked,
        !recorded.contains_key(graph[id].id),
        0 <= d < graph[id].deps.len(),
        !crossdag::reference(graph[id].deps[d]),
        graph.contains_key(graph[id].deps[d]),
        graph[graph[id].deps[d]].id == graph[id].deps[d],
        ({
            let dep = graph[id].deps[d];
            graph[dep].parked || recorded.contains_key(dep) && (recorded[dep]
                == NodeStatus::Waiting || recorded[dep] == NodeStatus::Parked || recorded[dep]
                == NodeStatus::Cancelled)
        }),
    ensures
        derived(graph, recorded, resolved)[id] == NodeStatus::Blocked || derived(
            graph,
            recorded,
            resolved,
        )[id] == NodeStatus::Skipped,
        derived(graph, recorded, resolved)[id] == NodeStatus::Skipped ==> exists|e: int|
            0 <= e < graph[id].deps.len() && e != d && {
                let dep = #[trigger] graph[id].deps[e];
                let at = if crossdag::reference(dep) {
                    resolved
                } else {
                    derived(graph, recorded, resolved)
                };
                at.contains_key(dep) && (at[dep] == NodeStatus::Failed || at[dep]
                    == NodeStatus::Skipped)
            },
{
    let dep = graph[id].deps[d];
    law_a_recorded_settlement_stands(graph, recorded, resolved, dep);
    law_what_the_status_of_a_dependency_does(graph, recorded, resolved, id);
}

/// Against any statuses, what a node is eligible for follows from those of its
/// dependencies, status by status.
pub proof fn law_what_a_node_is_eligible_for(
    graph: Map<Seq<char>, NodeModel>,
    node: NodeModel,
    statuses: StatusModel,
    resolved: StatusModel,
)
    ensures
        ({
            let r = eligible(graph, node, statuses, resolved);
            let fails = exists|d: int|
                0 <= d < node.deps.len() && {
                    let dep = #[trigger] node.deps[d];
                    let at = if crossdag::reference(dep) { resolved } else { statuses };
                    (crossdag::reference(dep) || graph.contains_key(dep)) && at.contains_key(dep)
                        && (at[dep] == NodeStatus::Failed || at[dep] == NodeStatus::Skipped)
                };
            let held = exists|d: int|
                0 <= d < node.deps.len() && {
                    let dep = #[trigger] node.deps[d];
                    let at = if crossdag::reference(dep) { resolved } else { statuses };
                    if at.contains_key(dep) {
                        (crossdag::reference(dep) || graph.contains_key(dep)) && (at[dep]
                            == NodeStatus::Waiting || at[dep] == NodeStatus::Blocked || at[dep]
                            == NodeStatus::Parked || at[dep] == NodeStatus::Cancelled)
                    } else {
                        crossdag::reference(dep)
                    }
                };
            let done = forall|d: int|
                0 <= d < node.deps.len() ==> {
                    let dep = #[trigger] node.deps[d];
                    if crossdag::reference(dep) {
                        resolved.contains_key(dep) && resolved[dep] == NodeStatus::Done
                    } else {
                        graph.contains_key(dep) ==> statuses.contains_key(dep) && statuses[dep]
                            == NodeStatus::Done
                    }
                };
            &&& r == Some(NodeStatus::Skipped) <==> fails
            &&& r == Some(NodeStatus::Blocked) <==> held && !fails
            &&& r is None <==> !held && !fails && !done
            &&& r == Some(NodeStatus::Parked) <==> done && node.parked
            &&& r == Some(NodeStatus::Waiting) <==> done && !node.parked && node.kind
                == NodeKind::Human
            &&& r == Some(NodeStatus::Ready) <==> done && !node.parked && node.kind
                == NodeKind::Agent
        }),
{
    assert forall|d: int| 0 <= d < node.deps.len() implies (match bearing(
        graph,
        statuses,
        resolved,
        #[trigger] node.deps[d],
    ) {
        Bearing::Fails => {
            let at = if crossdag::reference(node.deps[d]) { resolved } else { statuses };
            (crossdag::reference(node.deps[d]) || graph.contains_key(node.deps[d]))
                && at.contains_key(node.deps[d]) && (at[node.deps[d]] == NodeStatus::Failed
                || at[node.deps[d]] == NodeStatus::Skipped)
        },
        Bearing::Gates => {
            let at = if crossdag::reference(node.deps[d]) { resolved } else { statuses };
            if at.contains_key(node.deps[d]) {
                (crossdag::reference(node.deps[d]) || graph.contains_key(node.deps[d])) && (
                at[node.deps[d]] == NodeStatus::Waiting || at[node.deps[d]] == NodeStatus::Blocked
                    || at[node.deps[d]] == NodeStatus::Parked || at[node.deps[d]]
                    == NodeStatus::Cancelled)
            } else {
                crossdag::reference(node.deps[d])
            }
        },
        Bearing::Open => !crossdag::reference(node.deps[d]) && graph.contains_key(node.deps[d])
            && !statuses.contains_key(node.deps[d]) || {
            let at = if crossdag::reference(node.deps[d]) { resolved } else { statuses };
            at.contains_key(node.deps[d]) && at[node.deps[d]] != NodeStatus::Done
        },
        Bearing::Clear => if crossdag::reference(node.deps[d]) {
            resolved.contains_key(node.deps[d]) && resolved[node.deps[d]] == NodeStatus::Done
        } else {
            graph.contains_key(node.deps[d]) ==> statuses.contains_key(node.deps[d])
                && statuses[node.deps[d]] == NodeStatus::Done
        },
    }) by {}
}

/// A run has converged exactly when nothing of it can still move: no node is pending,
/// ready, running, or a draft that waits on its release.
pub proof fn law_a_run_has_converged_when_nothing_can_move(statuses: StatusModel)
    ensures
        all_settled(statuses) <==> forall|k: Seq<char>| #[trigger]
            statuses.contains_key(k) ==> statuses[k] != NodeStatus::Pending && statuses[k]
                != NodeStatus::Ready && statuses[k] != NodeStatus::Running && statuses[k]
                != NodeStatus::CompleteDraft,
{
}

/// One node that failed or was skipped fails the graph, a graph is complete when every
/// node of it is done, and any other waits.
pub proof fn law_a_graph_fails_completes_or_waits(statuses: StatusModel)
    ensures
        settled_state(statuses) == GraphState::Failed <==> exists|k: Seq<char>| #[trigger]
            statuses.contains_key(k) && (statuses[k] == NodeStatus::Failed || statuses[k]
                == NodeStatus::Skipped),
        settled_state(statuses) == GraphState::Complete <==> forall|k: Seq<char>| #[trigger]
            statuses.contains_key(k) ==> statuses[k] == NodeStatus::Done,
{
    assert forall|k: Seq<char>| #[trigger] statuses.contains_key(k) && statuses[k]
        == NodeStatus::Done implies !gates(statuses[k]) && !skips(statuses[k]) by {}
}

proof fn lemma_filtered_deps(deps: Seq<Seq<char>>, statuses: StatusModel)
    ensures
        failing_deps(deps, statuses) == deps.filter(
            |dep: Seq<char>|
                statuses.contains_key(dep) && (statuses[dep] == NodeStatus::Failed || statuses[dep]
                    == NodeStatus::Skipped),
        ).map_values(|dep: Seq<char>| (dep, statuses[dep])),
    decreases deps.len(),
{
    reveal(Seq::filter);
    let keep = |dep: Seq<char>|
        statuses.contains_key(dep) && (statuses[dep] == NodeStatus::Failed || statuses[dep]
            == NodeStatus::Skipped);
    let pair = |dep: Seq<char>| (dep, statuses[dep]);
    if deps.len() > 0 {
        lemma_filtered_deps(deps.drop_last(), statuses);
        let before = deps.drop_last().filter(keep);
        assert(before.push(deps.last()).map_values(pair) =~= before.map_values(pair).push(
            pair(deps.last()),
        ));
    } else {
        assert(deps.filter(keep).map_values(pair) =~= Seq::empty());
    }
}

/// What skipped a node is told as the dependencies of it that failed or were skipped, all
/// of them, each with its own status, in the order the node declares them; a node that is
/// not skipped names none.
pub proof fn law_a_skip_names_all_that_failed(
    graph: Map<Seq<char>, NodeModel>,
    statuses: StatusModel,
    id: Seq<char>,
)
    ensures
        graph.contains_key(id) && statuses.contains_key(id) && statuses[id] == NodeStatus::Skipped
            ==> skip_causes(graph, statuses, id) == graph[id].deps.filter(
            |dep: Seq<char>|
                statuses.contains_key(dep) && (statuses[dep] == NodeStatus::Failed || statuses[dep]
                    == NodeStatus::Skipped),
        ).map_values(|dep: Seq<char>| (dep, statuses[dep])),
        statuses.contains_key(id) && statuses[id] != NodeStatus::Skipped ==> skip_causes(
            graph,
            statuses,
            id,
        ).len() == 0,
{
    lemma_filtered_deps(graph[id].deps, statuses);
}

/// What a node unblocks is every node that declares it as a dependency, in the order of
/// the plan.
pub proof fn law_a_node_unblocks_what_depends_on_it(nodes: Seq<NodeModel>, id: Seq<char>)
    ensures
        dependents(nodes, id) == nodes.filter(|n: NodeModel| n.deps.contains(id)).map_values(
            |n: NodeModel| n.id,
        ),
    decreases nodes.len(),
{
    reveal(Seq::filter);
    let keep = |n: NodeModel| n.deps.contains(id);
    let name = |n: NodeModel| n.id;
    if nodes.len() > 0 {
        law_a_node_unblocks_what_depends_on_it(nodes.drop_last(), id);
        let before = nodes.drop_last().filter(keep);
        assert(before.push(nodes.last()).map_values(name) =~= before.map_values(name).push(
            nodes.last().id,
        ));
    } else {
        assert(nodes.filter(keep).map_values(name) =~= Seq::empty());
    }
}

/// Every node of a graph has a status and nothing else has: what is derived speaks of the
/// graph it was derived from.
pub proof fn law_what_is_derived_speaks_of_its_graph(
    graph: Map<Seq<char>, NodeModel>,
    recorded: StatusModel,
    resolved: StatusModel,
    id: Seq<char>,
)
    ensures
        derived(graph, recorded, resolved).contains_key(id) <==> graph.contains_key(id),
{
}

/// A graph is its plan's nodes, one by one: each joins under its own id, takes the place of
/// one that had the id before it, and leaves every other node as it was. An id keeps the
/// place in the order at which it first came.
pub proof fn law_a_node_joins_the_graph_of_its_plan(
    tasks: Seq<NodeModel>,
    n: NodeModel,
    other: Seq<char>,
)
    ensures
        inserted(Map::empty(), Seq::empty(), Seq::empty()) == (
            Map::<Seq<char>, NodeModel>::empty(),
            Seq::<Seq<char>>::empty(),
        ),
        ({
            let (before, order) = inserted(Map::empty(), Seq::empty(), tasks);
            let (after, ordered) = inserted(Map::empty(), Seq::empty(), tasks.push(n));
            &&& after.contains_key(n.id) && after[n.id] == n
            &&& other != n.id ==> (after.contains_key(other) <==> before.contains_key(other))
            &&& other != n.id && before.contains_key(other) ==> after[other] == before[other]
            &&& before.contains_key(n.id) ==> ordered == order
            &&& !before.contains_key(n.id) ==> ordered == order.push(n.id)
        }),
{
    assert(tasks.push(n).drop_last() =~= tasks);
}

} // verus!
