//! Dependency cycles among the nodes of a plan.
use vstd::prelude::*;

use crate::crossdag;
use crate::names::NameMap;
use crate::plan::{node_models, Node, NodeModel};

verus! {

/// No two nodes of a list have the same id.
pub open spec fn unique_ids(tasks: Seq<NodeModel>) -> bool {
    forall|i: int, j: int|
        0 <= i < j < tasks.len() ==> #[trigger] tasks[i].id != #[trigger] tasks[j].id
}

/// One node names another of the same plan as a dependency.
pub open spec fn edge(tasks: Seq<NodeModel>, i: int, j: int) -> bool {
    &&& 0 <= i < tasks.len()
    &&& 0 <= j < tasks.len()
    &&& tasks[i].deps.contains(tasks[j].id)
    &&& !crossdag::reference(tasks[j].id)
}

/// A walk along dependencies that comes back to where it started.
pub open spec fn is_cycle(tasks: Seq<NodeModel>, walk: Seq<int>) -> bool {
    &&& walk.len() >= 2
    &&& walk.first() == walk.last()
    &&& forall|k: int| 0 <= k < walk.len() - 1 ==> edge(tasks, #[trigger] walk[k], walk[k + 1])
}

/// No walk along dependencies comes back to where it started.
pub open spec fn acyclic(tasks: Seq<NodeModel>) -> bool {
    forall|walk: Seq<int>| !(#[trigger] is_cycle(tasks, walk))
}

/// The ids along a walk.
pub open spec fn ids_along(tasks: Seq<NodeModel>, walk: Seq<int>) -> Seq<Seq<char>> {
    walk.map_values(|i: int| tasks[i].id)
}

/// Positions as mathematical integers.
pub open spec fn positions(walk: Seq<usize>) -> Seq<int> {
    walk.map_values(|i: usize| i as int)
}

/// Where an id first stands in a plan, from a position on.
pub open spec fn place_of(tasks: Seq<NodeModel>, id: Seq<char>, from: int) -> Option<int>
    decreases tasks.len() - from,
{
    if from < 0 || from >= tasks.len() {
        None
    } else if tasks[from].id == id {
        Some(from)
    } else {
        place_of(tasks, id, from + 1)
    }
}

/// The nodes of a plan that dependencies name, in the order they name them.
pub open spec fn named_by(tasks: Seq<NodeModel>, deps: Seq<Seq<char>>) -> Seq<int>
    decreases deps.len(),
{
    if deps.len() == 0 {
        Seq::empty()
    } else {
        let before = named_by(tasks, deps.drop_last());
        match place_of(tasks, deps.last(), 0) {
            Some(j) => if crossdag::reference(deps.last()) {
                before
            } else {
                before.push(j)
            },
            None => before,
        }
    }
}

/// A walk along dependencies from a node that meets a node twice.
pub open spec fn rounds(tasks: Seq<NodeModel>, i: int, walk: Seq<int>) -> bool {
    &&& walk.len() >= 2
    &&& walk[0] == i
    &&& forall|k: int| 0 <= k < walk.len() - 1 ==> edge(tasks, #[trigger] walk[k], walk[k + 1])
    &&& walk.drop_last().contains(walk.last())
}

/// Dependencies lead from a node into a cycle.
pub open spec fn leads_round(tasks: Seq<NodeModel>, i: int) -> bool {
    exists|walk: Seq<int>| #[trigger] rounds(tasks, i, walk)
}

/// The first of some nodes that leads into a cycle, from a position on.
pub open spec fn first_round(tasks: Seq<NodeModel>, list: Seq<int>, from: int) -> Option<int>
    decreases list.len() - from,
{
    if from < 0 || from >= list.len() {
        None
    } else if leads_round(tasks, list[from]) {
        Some(list[from])
    } else {
        first_round(tasks, list, from + 1)
    }
}

/// The trail into the first cycle: from the first node of the plan that leads into
/// one, always to the first dependency that does.
pub open spec fn trail(tasks: Seq<NodeModel>, n: nat) -> Seq<int>
    decreases n,
{
    if n == 0 {
        seq![first_round(tasks, Seq::new(tasks.len(), |i: int| i), 0)->0]
    } else {
        let before = trail(tasks, (n - 1) as nat);
        before.push(first_round(tasks, named_by(tasks, tasks[before.last()].deps), 0)->0)
    }
}

/// The trail meets a node for the second time after so many steps.
pub open spec fn closes(tasks: Seq<NodeModel>, n: nat) -> bool {
    let on = trail(tasks, n);
    on.drop_last().no_duplicates() && on.drop_last().contains(on.last())
}

/// The first cycle of a plan: what the trail into it walks, from where it first meets
/// a node to where it meets that node again.
pub open spec fn is_first_cycle(tasks: Seq<NodeModel>, walk: Seq<int>) -> bool {
    exists|n: nat, s: int| #[trigger] cycle_closed_by(tasks, walk, n, s)
}

/// The first cycle of a plan is closed by a step of the trail into it, back to an
/// earlier one.
pub open spec fn cycle_closed_by(tasks: Seq<NodeModel>, walk: Seq<int>, n: nat, s: int) -> bool {
    let on = trail(tasks, n);
    &&& closes(tasks, n)
    &&& 0 <= s < n
    &&& on[s] == on.last()
    &&& walk == on.subrange(s, n as int + 1)
}

proof fn lemma_trail_len(tasks: Seq<NodeModel>, n: nat)
    ensures
        trail(tasks, n).len() == n + 1,
    decreases n,
{
    if n > 0 {
        lemma_trail_len(tasks, (n - 1) as nat);
    }
}

proof fn lemma_trail_prefix(tasks: Seq<NodeModel>, m: nat, n: nat)
    requires
        m <= n,
    ensures
        trail(tasks, m) == trail(tasks, n).take(m as int + 1),
    decreases n - m,
{
    lemma_trail_len(tasks, n);
    lemma_trail_len(tasks, m);
    if m < n {
        lemma_trail_len(tasks, (n - 1) as nat);
        lemma_trail_prefix(tasks, m, (n - 1) as nat);
        assert(trail(tasks, n).take(m as int + 1) =~= trail(tasks, (n - 1) as nat).take(m as int + 1));
    } else {
        assert(trail(tasks, n).take(n as int + 1) =~= trail(tasks, n));
    }
}

/// One cycle is the first: which cycle a plan is refused with is the plan's alone.
pub proof fn law_one_cycle_is_first(tasks: Seq<NodeModel>, one: Seq<int>, two: Seq<int>)
    requires
        is_first_cycle(tasks, one),
        is_first_cycle(tasks, two),
    ensures
        one == two,
{
    let (n, s) = choose|n: nat, s: int| #[trigger] cycle_closed_by(tasks, one, n, s);
    let (m, u) = choose|m: nat, u: int| #[trigger] cycle_closed_by(tasks, two, m, u);
    lemma_trail_len(tasks, n);
    lemma_trail_len(tasks, m);
    if n < m {
        lemma_reopened(tasks, n, s, m);
    } else if m < n {
        lemma_reopened(tasks, m, u, n);
    } else {
        let on = trail(tasks, n);
        assert(on.drop_last()[s] == on.drop_last()[u]);
    }
}

/// A trail that has met a node twice goes on having met it.
proof fn lemma_reopened(tasks: Seq<NodeModel>, n: nat, s: int, m: nat)
    requires
        0 <= s < n < m,
        trail(tasks, n)[s] == trail(tasks, n).last(),
    ensures
        !trail(tasks, m).drop_last().no_duplicates(),
{
    lemma_trail_len(tasks, n);
    lemma_trail_len(tasks, m);
    lemma_trail_prefix(tasks, n, m);
    let on = trail(tasks, m).drop_last();
    assert(on[s] == trail(tasks, n)[s]);
    assert(on[n as int] == trail(tasks, n)[n as int]);
}

proof fn lemma_place(tasks: Seq<NodeModel>, id: Seq<char>, from: int, j: int)
    requires
        0 <= from <= j < tasks.len(),
        tasks[j].id == id,
        forall|q: int| 0 <= q < j ==> #[trigger] tasks[q].id != id,
    ensures
        place_of(tasks, id, from) == Some(j),
    decreases j - from,
{
    if from < j {
        lemma_place(tasks, id, from + 1, j);
    }
}

proof fn lemma_placeless(tasks: Seq<NodeModel>, id: Seq<char>, from: int)
    requires
        forall|q: int| 0 <= q < tasks.len() ==> #[trigger] tasks[q].id != id,
    ensures
        place_of(tasks, id, from) is None,
    decreases tasks.len() - from,
{
    if 0 <= from < tasks.len() {
        lemma_placeless(tasks, id, from + 1);
    }
}

proof fn lemma_first_round(tasks: Seq<NodeModel>, list: Seq<int>, from: int, at: int)
    requires
        0 <= from <= at < list.len(),
        leads_round(tasks, list[at]),
        forall|q: int|
            0 <= q < at && leads_round(tasks, #[trigger] list[q]) ==> list[q] == list[at],
    ensures
        first_round(tasks, list, from) == Some(list[at]),
    decreases at - from,
{
    if from < at && !leads_round(tasks, list[from]) {
        lemma_first_round(tasks, list, from + 1, at);
    }
}

/// Every node of a walk that comes back to one of its own leads into a cycle.
proof fn lemma_on_the_way(tasks: Seq<NodeModel>, full: Seq<int>, s: int, k: int)
    requires
        0 <= s < full.len() - 1,
        full[s] == full.last(),
        forall|p: int| 0 <= p < full.len() - 1 ==> edge(tasks, #[trigger] full[p], full[p + 1]),
        0 <= k < full.len(),
    ensures
        leads_round(tasks, full[k]),
{
    let end = full.len() as int;
    if k <= s || k == end - 1 {
        let from = if k <= s { k } else { s };
        let walk = full.subrange(from, end);
        assert(walk.drop_last()[s - from] == walk.last());
        assert forall|p: int| 0 <= p < walk.len() - 1 implies edge(
            tasks,
            #[trigger] walk[p],
            walk[p + 1],
        ) by {
            assert(walk[p] == full[from + p]);
            assert(walk[p + 1] == full[from + p + 1]);
        }
        assert(rounds(tasks, full[k], walk));
    } else {
        let head = full.subrange(k, end);
        let walk = head + full.subrange(s + 1, k + 1);
        assert(walk.drop_last()[0] == walk.last());
        assert forall|p: int| 0 <= p < walk.len() - 1 implies edge(
            tasks,
            #[trigger] walk[p],
            walk[p + 1],
        ) by {
            if p + 1 < head.len() {
                assert(walk[p] == full[k + p]);
                assert(walk[p + 1] == full[k + p + 1]);
            } else {
                let q = s + (p + 1 - head.len());
                assert(walk[p] == full[q]);
                assert(walk[p + 1] == full[q + 1]);
            }
        }
        assert(rounds(tasks, full[k], walk));
    }
}

/// What is found by always taking the first node that leads into a cycle is the
/// trail.
proof fn lemma_trail(tasks: Seq<NodeModel>, full: Seq<int>, n: nat)
    requires
        n < full.len(),
        first_round(tasks, Seq::new(tasks.len(), |i: int| i), 0) == Some(full[0]),
        forall|k: int|
            0 <= k < full.len() - 1 ==> first_round(
                tasks,
                named_by(tasks, tasks[#[trigger] full[k]].deps),
                0,
            ) == Some(full[k + 1]),
    ensures
        trail(tasks, n) == full.take(n as int + 1),
    decreases n,
{
    if n > 0 {
        lemma_trail(tasks, full, (n - 1) as nat);
        assert(full.take(n as int).last() == full[n - 1]);
        assert(trail(tasks, n) =~= full.take(n as int + 1));
    } else {
        assert(trail(tasks, 0) =~= full.take(1));
    }
}

/// The dependencies of each node, as positions in the plan.
spec fn kids_of(tasks: Seq<NodeModel>, kids: Seq<Vec<usize>>) -> bool {
    &&& kids.len() == tasks.len()
    &&& forall|i: int, k: int|
        #![trigger kids[i]@[k]]
        0 <= i < kids.len() && 0 <= k < kids[i]@.len() ==> edge(tasks, i, kids[i]@[k] as int)
    &&& forall|i: int, j: int| #[trigger]
        edge(tasks, i, j) ==> exists|k: int|
            0 <= k < kids[i]@.len() && #[trigger] kids[i]@[k] == j
}

/// Ranks that fall along every edge leave no cycle.
proof fn lemma_ranked(tasks: Seq<NodeModel>, rank: Map<int, int>, walk: Seq<int>, k: int)
    requires
        forall|i: int, j: int| #[trigger] edge(tasks, i, j) ==> rank[j] < rank[i],
        is_cycle(tasks, walk),
        1 <= k < walk.len(),
    ensures
        rank[walk[k]] < rank[walk[0]],
    decreases k,
{
    assert(edge(tasks, walk[k - 1], walk[k - 1 + 1]));
    if k > 1 {
        lemma_ranked(tasks, rank, walk, k - 1);
    }
}

/// The dependencies of each node stand in the order it names them.
#[verifier::opaque]
spec fn kids_named(tasks: Seq<NodeModel>, kids: Seq<Vec<usize>>) -> bool {
    forall|i: int|
        0 <= i < kids.len() ==> positions((#[trigger] kids[i])@) == named_by(tasks, tasks[i].deps)
}

/// The plan's dependencies, as positions.
fn kids(tasks: &Vec<Node>, index: &NameMap<usize>) -> (r: Vec<Vec<usize>>)
    requires
        index.wf(),
        index.order() == node_models(tasks@).map_values(|n: NodeModel| n.id),
    ensures
        kids_of(node_models(tasks@), r@),
        kids_named(node_models(tasks@), r@),
{
    let ghost model = node_models(tasks@);
    let mut out: Vec<Vec<usize>> = Vec::new();
    let mut i: usize = 0;
    while i < tasks.len()
        invariant
            i <= tasks@.len(),
            model == node_models(tasks@),
            index.wf(),
            index.order() == model.map_values(|n: NodeModel| n.id),
            out@.len() == i,
            forall|a: int|
                0 <= a < i ==> positions((#[trigger] out@[a])@) == named_by(model, model[a].deps),
            forall|a: int, k: int|
                #![trigger out@[a]@[k]]
                0 <= a < i && 0 <= k < out@[a]@.len() ==> edge(model, a, out@[a]@[k] as int),
            forall|a: int, j: int|
                0 <= a < i && #[trigger] edge(model, a, j) ==> exists|k: int|
                    0 <= k < out@[a]@.len() && #[trigger] out@[a]@[k] == j,
        decreases tasks@.len() - i,
    {
        let node = &tasks[i];
        let mut row: Vec<usize> = Vec::new();
        let mut d: usize = 0;
        assert(model[i as int] == node@);
        let ghost deps = model[i as int].deps;
        assert(positions(row@) =~= named_by(model, deps.take(0)));
        while d < node.deps.len()
            invariant
                deps == model[i as int].deps,
                deps.len() == node.deps@.len(),
                positions(row@) == named_by(model, deps.take(d as int)),
                i < tasks@.len(),
                model == node_models(tasks@),
                *node == tasks@[i as int],
                model[i as int] == node@,
                index.wf(),
                index.order() == model.map_values(|n: NodeModel| n.id),
                d <= node.deps@.len(),
                forall|k: int|
                    0 <= k < row@.len() ==> edge(model, i as int, #[trigger] row@[k] as int),
                forall|j: int, q: int|
                    0 <= j < model.len() && 0 <= q < d && #[trigger] model[i as int].deps[q]
                        == #[trigger] model[j].id && !crossdag::reference(model[j].id)
                        ==> exists|k: int| 0 <= k < row@.len() && #[trigger] row@[k] == j,
            decreases node.deps@.len() - d,
        {
            let dep = node.deps[d].as_str();
            assert(model[i as int].deps[d as int] == dep@);
            let ghost was = row@;
            proof {
                index.lemma_views();
                assert(deps.take(d + 1).drop_last() =~= deps.take(d as int));
                assert(deps.take(d + 1).last() == dep@);
            }
            if !crossdag::is_reference(dep) {
                match index.position(dep) {
                    Some(j) => {
                        assert(index.order()[j as int] == model[j as int].id);
                        assert(model[i as int].deps.contains(model[j as int].id));
                        row.push(j);
                        proof {
                            assert forall|q: int| 0 <= q < j implies #[trigger] model[q].id
                                != dep@ by {
                                assert(index.order()[q] == model[q].id);
                            }
                            lemma_place(model, dep@, 0, j as int);
                            assert(positions(row@) =~= positions(was).push(j as int));
                        }
                        assert(row@[row@.len() - 1] == j);
                        assert forall|k: int| 0 <= k < row@.len() implies edge(
                            model,
                            i as int,
                            #[trigger] row@[k] as int,
                        ) by {
                            if k < was.len() {
                                assert(row@[k] == was[k]);
                            }
                        }
                        assert forall|jj: int, q: int|
                            0 <= jj < model.len() && 0 <= q < d + 1
                                && #[trigger] model[i as int].deps[q] == #[trigger] model[jj].id
                                && !crossdag::reference(model[jj].id) implies exists|k: int|
                            0 <= k < row@.len() && #[trigger] row@[k] == jj by {
                            if q < d {
                                let k = choose|k: int|
                                    0 <= k < was.len() && #[trigger] was[k] == jj;
                                assert(row@[k] == jj);
                            } else {
                                assert(index.order()[jj] == index.order()[j as int]);
                                assert(jj == j);
                            }
                        }
                    },
                    None => {
                        assert forall|jj: int| 0 <= jj < model.len() implies #[trigger] model[jj].id
                            != dep@ by {
                            assert(index.order()[jj] == model[jj].id);
                        }
                        proof {
                            lemma_placeless(model, dep@, 0);
                        }
                    },
                }
            }
            d += 1;
        }
        let ghost was = out@;
        let ghost rowed = row@;
        out.push(row);
        proof {
            assert(deps.take(deps.len() as int) =~= deps);
            assert forall|a: int| 0 <= a < i + 1 implies positions((#[trigger] out@[a])@)
                == named_by(model, model[a].deps) by {
                if a < i {
                    assert(out@[a] == was[a]);
                }
            }
            assert forall|a: int, k: int|
                #![trigger out@[a]@[k]]
                0 <= a < i + 1 && 0 <= k < out@[a]@.len() implies edge(
                model,
                a,
                out@[a]@[k] as int,
            ) by {
                if a < i {
                    assert(out@[a] == was[a]);
                }
            }
            assert forall|a: int, j: int|
                0 <= a < i + 1 && #[trigger] edge(model, a, j) implies exists|k: int|
                0 <= k < out@[a]@.len() && #[trigger] out@[a]@[k] == j by {
                if a < i {
                    assert(out@[a] == was[a]);
                    let k = choose|k: int| 0 <= k < was[a]@.len() && #[trigger] was[a]@[k] == j;
                    assert(out@[a]@[k] == j);
                } else {
                    let q = choose|q: int|
                        0 <= q < model[a].deps.len() && model[a].deps[q] == model[j].id;
                    assert(model[i as int].deps[q] == model[j].id);
                    let k = choose|k: int| 0 <= k < rowed.len() && #[trigger] rowed[k] == j;
                    assert(out@[a]@ == rowed);
                    assert(out@[a]@[k] == j);
                }
            }
        }
        i += 1;
    }
    proof {
        reveal(kids_named);
    }
    out
}

/// Where a depth-first walk stands: which nodes it has not met, which are on its
/// way, and which it is done with.
spec fn walking(
    tasks: Seq<NodeModel>,
    kids: Seq<Vec<usize>>,
    color: Seq<u8>,
    path: Seq<usize>,
    next: Seq<usize>,
    rank: Map<int, int>,
    clock: int,
) -> bool {
    &&& kids_of(tasks, kids)
    &&& color.len() == tasks.len()
    &&& next.len() == path.len()
    &&& forall|v: int| 0 <= v < color.len() ==> #[trigger] color[v] <= 2
    // On the way: exactly the open nodes, each once, each leading to the next.
    &&& forall|p: int|
        0 <= p < path.len() ==> (#[trigger] path[p]) < tasks.len() && color[path[p] as int] == 1
    &&& forall|v: int|
        0 <= v < color.len() && #[trigger] color[v] == 1 ==> exists|p: int|
            0 <= p < path.len() && #[trigger] path[p] == v
    &&& forall|p: int, q: int| 0 <= p < q < path.len() ==> path[p] != path[q]
    &&& forall|p: int|
        0 <= p < path.len() - 1 ==> edge(tasks, #[trigger] path[p] as int, path[p + 1] as int)
    // What each node on the way has looked at is done with, or is the next on it.
    &&& forall|p: int, k: int|
        #![trigger path[p], kids[path[p] as int]@[k]]
        0 <= p < path.len() && 0 <= k < next[p] && k < kids[path[p] as int]@.len() ==> {
            ||| color[kids[path[p] as int]@[k] as int] == 2
            ||| p + 1 < path.len() && kids[path[p] as int]@[k] == path[p + 1]
        }
    // Everything a node done with depends on is done with before it.
    &&& forall|v: int, w: int|
        0 <= v < color.len() && color[v] == 2 && #[trigger] edge(tasks, v, w) ==> color[w] == 2
            && rank[w] < rank[v]
    &&& forall|v: int|
        0 <= v < color.len() && #[trigger] color[v] == 2 ==> rank[v] < clock
}

/// A node on the way was left for the dependency it last looked at.
spec fn led_at(kids: Seq<Vec<usize>>, path: Seq<usize>, next: Seq<usize>, p: int) -> bool {
    &&& 1 <= next[p] <= kids[path[p] as int]@.len()
    &&& kids[path[p] as int]@[next[p] - 1] == path[p + 1]
}

/// Each node on the way was left for the dependency it last looked at.
spec fn led(kids: Seq<Vec<usize>>, path: Seq<usize>, next: Seq<usize>) -> bool {
    forall|p: int| 0 <= p < path.len() - 1 ==> #[trigger] led_at(kids, path, next, p)
}

proof fn lemma_led_on(
    kids: Seq<Vec<usize>>,
    path0: Seq<usize>,
    next0: Seq<usize>,
    child: usize,
    path: Seq<usize>,
    next: Seq<usize>,
)
    requires
        led(kids, path0, next0),
        0 < path0.len() == next0.len(),
        next0.last() < kids[path0.last() as int]@.len(),
        child == kids[path0.last() as int]@[next0.last() as int],
        path == path0.push(child),
        next == next0.update(next0.len() - 1, (next0.last() + 1) as usize).push(0),
        next0.last() < usize::MAX,
    ensures
        led(kids, path, next),
{
    let top = path0.len() - 1;
    assert forall|p: int| 0 <= p < path.len() - 1 implies #[trigger] led_at(kids, path, next, p) by {
        assert(path[p] == path0[p]);
        if p < top {
            assert(led_at(kids, path0, next0, p));
            assert(path[p + 1] == path0[p + 1]);
        }
    }
}

proof fn lemma_led_past(
    kids: Seq<Vec<usize>>,
    path: Seq<usize>,
    next0: Seq<usize>,
    next: Seq<usize>,
)
    requires
        led(kids, path, next0),
        0 < path.len() == next0.len(),
        next.len() == next0.len(),
        forall|p: int| 0 <= p < path.len() - 1 ==> next[p] == next0[p],
    ensures
        led(kids, path, next),
{
    assert forall|p: int| 0 <= p < path.len() - 1 implies #[trigger] led_at(kids, path, next, p) by {
        assert(led_at(kids, path, next0, p));
    }
}

proof fn lemma_led_back(
    kids: Seq<Vec<usize>>,
    path0: Seq<usize>,
    next0: Seq<usize>,
    path: Seq<usize>,
    next: Seq<usize>,
)
    requires
        led(kids, path0, next0),
        0 < path0.len() == next0.len(),
        path == path0.drop_last(),
        next == next0.drop_last(),
    ensures
        led(kids, path, next),
{
    assert forall|p: int| 0 <= p < path.len() - 1 implies #[trigger] led_at(kids, path, next, p) by {
        assert(led_at(kids, path0, next0, p));
    }
}

/// A walk from a node done with stays among those and falls in rank.
proof fn lemma_falls(
    tasks: Seq<NodeModel>,
    color: Seq<u8>,
    rank: Map<int, int>,
    walk: Seq<int>,
    j: int,
    k: int,
)
    requires
        color.len() == tasks.len(),
        forall|v: int, w: int|
            0 <= v < color.len() && color[v] == 2 && #[trigger] edge(tasks, v, w) ==> color[w] == 2
                && rank[w] < rank[v],
        forall|p: int| 0 <= p < walk.len() - 1 ==> edge(tasks, #[trigger] walk[p], walk[p + 1]),
        walk.len() > 0,
        0 <= walk[0] < color.len(),
        color[walk[0]] == 2,
        0 <= j <= k < walk.len(),
    ensures
        0 <= walk[k] < color.len(),
        color[walk[k]] == 2,
        j < k ==> rank[walk[k]] < rank[walk[j]],
    decreases k,
{
    if k > 0 {
        assert(edge(tasks, walk[k - 1], walk[k - 1 + 1]));
        lemma_falls(tasks, color, rank, walk, if j < k { j } else { k - 1 }, k - 1);
    }
}

/// A node done with leads into no cycle.
proof fn lemma_done(
    tasks: Seq<NodeModel>,
    kids: Seq<Vec<usize>>,
    color: Seq<u8>,
    path: Seq<usize>,
    next: Seq<usize>,
    rank: Map<int, int>,
    clock: int,
    v: int,
)
    requires
        walking(tasks, kids, color, path, next, rank, clock),
        0 <= v < color.len(),
        color[v] == 2,
    ensures
        !leads_round(tasks, v),
{
    if leads_round(tasks, v) {
        let walk = choose|walk: Seq<int>| #[trigger] rounds(tasks, v, walk);
        let j = choose|j: int| 0 <= j < walk.len() - 1 && walk.drop_last()[j] == walk.last();
        lemma_falls(tasks, color, rank, walk, j, walk.len() - 1);
    }
}

/// The way a cycle was found along is the trail into the first one.
#[verifier::spinoff_prover]
#[verifier::rlimit(60)]
proof fn lemma_found(
    tasks: Seq<NodeModel>,
    kids: Seq<Vec<usize>>,
    color: Seq<u8>,
    path: Seq<usize>,
    next: Seq<usize>,
    rank: Map<int, int>,
    clock: int,
    child: usize,
    start: int,
)
    requires
        walking(tasks, kids, color, path, next, rank, clock),
        led(kids, path, next),
        kids_named(tasks, kids),
        path.len() > 0,
        forall|v: int| 0 <= v < path[0] ==> #[trigger] color[v] == 2,
        next.last() < kids[path.last() as int]@.len(),
        kids[path.last() as int]@[next.last() as int] == child,
        0 <= start < path.len(),
        path[start] == child,
    ensures
        is_cycle(tasks, positions(path.subrange(start, path.len() as int).push(child))),
        is_first_cycle(
            tasks,
            positions(path.subrange(start, path.len() as int).push(child)),
        ),
{
    reveal(kids_named);
    let full = positions(path).push(child as int);
    let n = path.len();
    let top = path.len() - 1;
    assert forall|p: int| 0 <= p < full.len() - 1 implies edge(
        tasks,
        #[trigger] full[p],
        full[p + 1],
    ) by {
        if p < top {
            assert(edge(tasks, path[p] as int, path[p + 1] as int));
        } else {
            assert(edge(
                tasks,
                path[top] as int,
                kids[path[top] as int]@[next[top] as int] as int,
            ));
        }
    }
    let all = Seq::new(tasks.len(), |i: int| i);
    let root = path[0] as int;
    assert(first_round(tasks, all, 0) == Some(full[0])) by {
        lemma_on_the_way(tasks, full, start, 0);
        assert(all[root] == root);
        assert forall|q: int| 0 <= q < root && leads_round(
            tasks,
            #[trigger] all[q],
        ) implies all[q] == all[root] by {
            assert(color[q] == 2);
            lemma_done(tasks, kids, color, path, next, rank, clock, q);
        }
        lemma_first_round(tasks, all, 0, root);
    }
    assert forall|k: int| 0 <= k < full.len() - 1 implies first_round(
        tasks,
        named_by(tasks, tasks[#[trigger] full[k]].deps),
        0,
    ) == Some(full[k + 1]) by {
        let v = path[k] as int;
        let row = kids[v]@;
        let list = named_by(tasks, tasks[v].deps);
        assert(list == positions(kids[v]@));
        let at = if k < top {
            next[k] - 1
        } else {
            next[k] as int
        };
        if k < top {
            assert(led_at(kids, path, next, k));
        }
        assert(list[at] == full[k + 1]);
        lemma_on_the_way(tasks, full, start, k + 1);
        assert forall|q: int| 0 <= q < at && leads_round(tasks, #[trigger] list[q]) implies list[q]
            == list[at] by {
            assert(list[q] == row[q] as int);
            assert(path[k] == v && kids[path[k] as int]@[q] == row[q]);
            assert(edge(tasks, v, row[q] as int));
            if color[row[q] as int] == 2 {
                lemma_done(tasks, kids, color, path, next, rank, clock, row[q] as int);
            }
        }
        lemma_first_round(tasks, list, 0, at);
    }
    lemma_trail(tasks, full, n);
    assert(full.take(n as int + 1) =~= full);
    let on = trail(tasks, n);
    assert(on.drop_last() =~= positions(path));
    assert forall|i: int, j: int|
        0 <= i < on.drop_last().len() && 0 <= j < on.drop_last().len() && i
            != j implies on.drop_last()[i] != on.drop_last()[j] by {
        if i < j {
            assert(path[i] != path[j]);
        } else {
            assert(path[j] != path[i]);
        }
    }
    assert(on.drop_last()[start] == on.last());
    let walk = positions(path.subrange(start, path.len() as int).push(child));
    assert(walk =~= on.subrange(start, n as int + 1));
    assert(walk.first() == child && walk.last() == child);
    assert forall|k: int| 0 <= k < walk.len() - 1 implies edge(
        tasks,
        #[trigger] walk[k],
        walk[k + 1],
    ) by {
        assert(walk[k] == full[start + k]);
        assert(walk[k + 1] == full[start + k + 1]);
    }
    assert(cycle_closed_by(tasks, walk, n, start));
}

spec fn white_set(color: Seq<u8>) -> Set<int> {
    Set::new(|v: int| 0 <= v < color.len() && color[v] == 0)
}

proof fn lemma_white_finite(color: Seq<u8>)
    ensures
        white_set(color).finite(),
{
    let all = vstd::set_lib::set_int_range(0, color.len() as int);
    vstd::set_lib::lemma_int_range(0, color.len() as int);
    assert(white_set(color).subset_of(all));
    vstd::set_lib::lemma_set_subset_finite(all, white_set(color));
}

/// The first cycle among the plan's dependencies, as positions in it; nothing exactly
/// where there is none.
///
/// The walk is iterative: a graph deep enough to overflow a recursive one is a
/// graph a planner can legally write.
pub fn find_cycle(tasks: &Vec<Node>, index: &NameMap<usize>) -> (r: Option<Vec<usize>>)
    requires
        index.wf(),
        index.order() == node_models(tasks@).map_values(|n: NodeModel| n.id),
    ensures
        match r {
            Some(walk) => is_cycle(node_models(tasks@), positions(walk@)) && is_first_cycle(
                node_models(tasks@),
                positions(walk@),
            ),
            None => acyclic(node_models(tasks@)),
        },
{
    let ghost model = node_models(tasks@);
    let n: usize = tasks.len();
    let kids = kids(tasks, index);
    let mut color: Vec<u8> = Vec::new();
    let mut i: usize = 0;
    while i < n
        invariant
            i <= n,
            color@.len() == i,
            forall|v: int| 0 <= v < i ==> color@[v] == 0,
        decreases n - i,
    {
        color.push(0);
        i += 1;
    }
    let mut path: Vec<usize> = Vec::new();
    let mut next: Vec<usize> = Vec::new();
    let ghost mut rank: Map<int, int> = Map::total(|v: int| 0int);
    let ghost mut clock: int = 0;
    let mut root: usize = 0;
    while root < n
        invariant
            root <= n,
            n == model.len(),
            model == node_models(tasks@),
            walking(model, kids@, color@, path@, next@, rank, clock),
            path@.len() == 0,
            forall|v: int| 0 <= v < root ==> color@[v] == 2,
            kids_named(model, kids@),
        decreases n - root,
    {
        if color[root] == 0 {
            let ghost color0 = color@;
            color.set(root, 1);
            path.push(root);
            next.push(0);
            assert(path@[0] == root);
            proof {
                            assert forall|v: int, w: int|
                    0 <= v < color@.len() && color@[v] == 2 && #[trigger] edge(
                        model,
                        v,
                        w,
                    ) implies color@[w] == 2 && rank[w] < rank[v] by {
                    assert(color0[v] == 2);
                    assert(color0[w] == 2);
                }
                assert forall|v: int|
                    0 <= v < color@.len() && #[trigger] color@[v] == 1 implies exists|p: int|
                    0 <= p < path@.len() && #[trigger] path@[p] == v by {
                    if v != root {
                        assert(color0[v] == 1);
                    }
                    assert(path@[0] == root);
                }
                assert forall|v: int|
                    0 <= v < color@.len() && #[trigger] color@[v] == 2 implies rank[v] < clock by {
                    assert(color0[v] == 2);
                }
                assert forall|v: int| 0 <= v < color@.len() implies #[trigger] color@[v] <= 2 by {
                    assert(color0[v] <= 2);
                }
            }
            while path.len() > 0
                invariant
                    root < n,
                    n == model.len(),
                    model == node_models(tasks@),
                    walking(model, kids@, color@, path@, next@, rank, clock),
                    led(kids@, path@, next@),
                    path@.len() > 0 ==> path@[0] == root,
                    forall|v: int| 0 <= v < root ==> #[trigger] color@[v] == 2,
                    color@[root as int] != 0,
                    kids_named(model, kids@),
                decreases
                    white_set(color@).len(),
                    path@.len(),
                    (if path@.len() > 0 {
                        kids@[path@.last() as int]@.len() - next@.last()
                    } else {
                        0
                    }),
            {
                let top: usize = path.len() - 1;
                let node: usize = path[top];
                let at: usize = next[top];
                assert(path@[top as int] == node);
                if at < kids[node].len() {
                    let child: usize = kids[node][at];
                    assert(edge(model, node as int, kids@[node as int]@[at as int] as int));
                    if color[child] == 1 {
                        let mut start: usize = 0;
                        while start < path.len() && path[start] != child
                            invariant
                                start <= path@.len(),
                                forall|p: int| 0 <= p < start ==> path@[p] != child,
                            decreases path@.len() - start,
                        {
                            start += 1;
                        }
                        let mut walk: Vec<usize> = Vec::new();
                        let mut p: usize = start;
                        while p < path.len()
                            invariant
                                start <= p <= path@.len(),
                                walk@ == path@.subrange(start as int, p as int),
                            decreases path@.len() - p,
                        {
                            walk.push(path[p]);
                            p += 1;
                            assert(walk@ =~= path@.subrange(start as int, p as int));
                        }
                        walk.push(child);
                        proof {
                            let found = choose|p: int|
                                0 <= p < path@.len() && #[trigger] path@[p] == child;
                            assert(path@[found] == child);
                            assert(start < path@.len());
                            lemma_found(
                                model,
                                kids@,
                                color@,
                                path@,
                                next@,
                                rank,
                                clock,
                                child,
                                start as int,
                            );
                            assert(walk@ =~= path@.subrange(
                                start as int,
                                path@.len() as int,
                            ).push(child));
                        }
                        return Some(walk);
                    }
                    let ghost path0 = path@;
                    let ghost next0 = next@;
                    let ghost color0 = color@;
                    next.set(top, at + 1);
                    if color[child] == 0 {
                        color.set(child, 1);
                        path.push(child);
                        next.push(0);
                        proof {
                            lemma_led_on(kids@, path0, next0, child, path@, next@);
                            lemma_white_finite(color0);
                            assert(white_set(color@) =~= white_set(color0).remove(child as int));
                            assert(white_set(color0).contains(child as int));
                            lemma_descend(
                                model,
                                kids@,
                                color0,
                                path0,
                                next0,
                                rank,
                                clock,
                                child,
                                color@,
                                path@,
                                next@,
                            );
                        }
                    } else {
                        proof {
                            lemma_led_past(kids@, path@, next0, next@);
                            assert(color@[child as int] == 2);
                            lemma_advance(model, kids@, color@, path@, next0, rank, clock, next@);
                        }
                    }
                } else {
                    let ghost path0 = path@;
                    let ghost next0 = next@;
                    let ghost color0 = color@;
                    let ghost rank0 = rank;
                    let ghost clock0 = clock;
                    color.set(node, 2);
                    let _ = path.pop();
                    let _ = next.pop();
                    proof {
                        lemma_led_back(kids@, path0, next0, path@, next@);
                        rank = rank.insert(node as int, clock);
                        clock = clock + 1;
                        lemma_close(
                            model,
                            kids@,
                            color0,
                            path0,
                            next0,
                            rank0,
                            clock0,
                            color@,
                            path@,
                            next@,
                        );
                        assert(white_set(color@) =~= white_set(color0));
                    }
                }
            }
        }
        proof {
            if color@[root as int] == 1 {
                let p = choose|p: int| 0 <= p < path@.len() && #[trigger] path@[p] == root;
                assert(false);
            }
            assert(color@[root as int] <= 2);
        }
        root += 1;
    }
    proof {
        assert forall|walk: Seq<int>| !(#[trigger] is_cycle(model, walk)) by {
            if is_cycle(model, walk) {
                assert forall|i: int, j: int| #[trigger] edge(model, i, j) implies rank[j]
                    < rank[i] by {
                    assert(color@[i] == 2);
                }
                lemma_ranked(model, rank, walk, walk.len() - 1);
            }
        }
    }
    None
}

proof fn lemma_descend(
    tasks: Seq<NodeModel>,
    kids: Seq<Vec<usize>>,
    color0: Seq<u8>,
    path0: Seq<usize>,
    next0: Seq<usize>,
    rank: Map<int, int>,
    clock: int,
    child: usize,
    color: Seq<u8>,
    path: Seq<usize>,
    next: Seq<usize>,
)
    requires
        walking(tasks, kids, color0, path0, next0, rank, clock),
        path0.len() > 0,
        next0.last() < kids[path0.last() as int]@.len(),
        child == kids[path0.last() as int]@[next0.last() as int],
        child < color0.len(),
        color0[child as int] == 0,
        color == color0.update(child as int, 1),
        path == path0.push(child),
        next == next0.update(next0.len() - 1, (next0.last() + 1) as usize).push(0),
        next0.last() < usize::MAX,
    ensures
        walking(tasks, kids, color, path, next, rank, clock),
{
    let top = path0.len() - 1;
    assert(path[top + 1] == child);
    assert forall|v: int| 0 <= v < color.len() implies #[trigger] color[v] <= 2 by {
        assert(color0[v] <= 2);
    }
    assert forall|p: int| 0 <= p < path.len() implies (#[trigger] path[p]) < tasks.len()
        && color[path[p] as int] == 1 by {
        if p <= top {
            assert(path[p] == path0[p]);
        }
    }
    assert forall|v: int| 0 <= v < color.len() && #[trigger] color[v] == 1 implies exists|p: int|
        0 <= p < path.len() && #[trigger] path[p] == v by {
        if v == child {
            assert(path[top + 1] == v);
        } else {
            assert(color0[v] == 1);
            let p = choose|p: int| 0 <= p < path0.len() && #[trigger] path0[p] == v;
            assert(path[p] == v);
        }
    }
    assert forall|p: int, q: int| 0 <= p < q < path.len() implies path[p] != path[q] by {
        if q == top + 1 {
            assert(color0[path0[p] as int] == 1);
        }
    }
    assert forall|p: int| 0 <= p < path.len() - 1 implies edge(
        tasks,
        #[trigger] path[p] as int,
        path[p + 1] as int,
    ) by {
        if p < top {
            assert(path[p] == path0[p]);
            assert(path[p + 1] == path0[p + 1]);
        } else {
            assert(edge(
                tasks,
                path0[top] as int,
                kids[path0[top] as int]@[next0[top] as int] as int,
            ));
        }
    }
    assert forall|p: int, k: int|
        #![trigger path[p], kids[path[p] as int]@[k]]
        0 <= p < path.len() && 0 <= k < next[p] && k < kids[path[p] as int]@.len() implies {
        ||| color[kids[path[p] as int]@[k] as int] == 2
        ||| p + 1 < path.len() && kids[path[p] as int]@[k] == path[p + 1]
    } by {
        if p <= top {
            assert(path[p] == path0[p]);
            assert(edge(tasks, path0[p] as int, kids[path0[p] as int]@[k] as int));
            if p < top || k < next0[top] {
                if color0[kids[path0[p] as int]@[k] as int] == 2 {
                } else {
                    assert(path[p + 1] == path0[p + 1]);
                }
            }
        }
    }
    assert forall|v: int, w: int|
        0 <= v < color.len() && color[v] == 2 && #[trigger] edge(tasks, v, w) implies color[w] == 2
        && rank[w] < rank[v] by {
        assert(color0[v] == 2);
        assert(color0[w] == 2);
    }
    assert forall|v: int| 0 <= v < color.len() && #[trigger] color[v] == 2 implies rank[v]
        < clock by {
        assert(color0[v] == 2);
    }
}

proof fn lemma_advance(
    tasks: Seq<NodeModel>,
    kids: Seq<Vec<usize>>,
    color: Seq<u8>,
    path: Seq<usize>,
    next0: Seq<usize>,
    rank: Map<int, int>,
    clock: int,
    next: Seq<usize>,
)
    requires
        walking(tasks, kids, color, path, next0, rank, clock),
        path.len() > 0,
        next0.last() < kids[path.last() as int]@.len(),
        color[kids[path.last() as int]@[next0.last() as int] as int] == 2,
        next0.last() < usize::MAX,
        next == next0.update(next0.len() - 1, (next0.last() + 1) as usize),
    ensures
        walking(tasks, kids, color, path, next, rank, clock),
{
}

proof fn lemma_close(
    tasks: Seq<NodeModel>,
    kids: Seq<Vec<usize>>,
    color0: Seq<u8>,
    path0: Seq<usize>,
    next0: Seq<usize>,
    rank0: Map<int, int>,
    clock0: int,
    color: Seq<u8>,
    path: Seq<usize>,
    next: Seq<usize>,
)
    requires
        walking(tasks, kids, color0, path0, next0, rank0, clock0),
        path0.len() > 0,
        next0.last() >= kids[path0.last() as int]@.len(),
        color == color0.update(path0.last() as int, 2),
        path == path0.drop_last(),
        next == next0.drop_last(),
    ensures
        walking(
            tasks,
            kids,
            color,
            path,
            next,
            rank0.insert(path0.last() as int, clock0),
            clock0 + 1,
        ),
{
    let top = path0.len() - 1;
    let node = path0[top] as int;
    let rank = rank0.insert(node, clock0);
    assert(color0[node] == 1);
    assert forall|v: int| 0 <= v < color.len() implies #[trigger] color[v] <= 2 by {
        assert(color0[v] <= 2);
    }
    assert forall|p: int| 0 <= p < path.len() implies (#[trigger] path[p]) < tasks.len()
        && color[path[p] as int] == 1 by {
        assert(path[p] == path0[p]);
        assert(path0[p] != path0[top]);
    }
    assert forall|v: int| 0 <= v < color.len() && #[trigger] color[v] == 1 implies exists|p: int|
        0 <= p < path.len() && #[trigger] path[p] == v by {
        assert(color0[v] == 1);
        let p = choose|p: int| 0 <= p < path0.len() && #[trigger] path0[p] == v;
        assert(p != top);
        assert(path[p] == v);
    }
    assert forall|p: int| 0 <= p < path.len() - 1 implies edge(
        tasks,
        #[trigger] path[p] as int,
        path[p + 1] as int,
    ) by {
        assert(path[p] == path0[p]);
        assert(path[p + 1] == path0[p + 1]);
    }
    assert forall|p: int, k: int|
        #![trigger path[p], kids[path[p] as int]@[k]]
        0 <= p < path.len() && 0 <= k < next[p] && k < kids[path[p] as int]@.len() implies {
        ||| color[kids[path[p] as int]@[k] as int] == 2
        ||| p + 1 < path.len() && kids[path[p] as int]@[k] == path[p + 1]
    } by {
        assert(path[p] == path0[p]);
        assert(edge(tasks, path0[p] as int, kids[path0[p] as int]@[k] as int));
        if color0[kids[path0[p] as int]@[k] as int] != 2 {
            assert(kids[path0[p] as int]@[k] == path0[p + 1]);
        }
    }
    assert forall|v: int, w: int|
        0 <= v < color.len() && color[v] == 2 && #[trigger] edge(tasks, v, w) implies color[w] == 2
        && rank[w] < rank[v] by {
        if v == node {
            let k = choose|k: int| 0 <= k < kids[v]@.len() && #[trigger] kids[v]@[k] == w;
            assert(path0[top] == v);
            assert(kids[path0[top] as int]@[k] == w);
            assert(color0[w] == 2);
            assert(rank0[w] < clock0);
        } else {
            assert(color0[v] == 2);
            assert(color0[w] == 2);
        }
    }
    assert forall|v: int| 0 <= v < color.len() && #[trigger] color[v] == 2 implies rank[v] < clock0
        + 1 by {
        if v != node {
            assert(color0[v] == 2);
        }
    }
}

/// A cycle is a walk of two nodes or more along declared dependencies within the plan that
/// ends where it began.
pub proof fn law_what_a_cycle_is(tasks: Seq<NodeModel>, walk: Seq<int>)
    ensures
        is_cycle(tasks, walk) <==> {
            &&& walk.len() >= 2
            &&& walk[0] == walk[walk.len() - 1]
            &&& forall|k: int|
                0 <= k < walk.len() - 1 ==> {
                    let i = #[trigger] walk[k];
                    let j = walk[k + 1];
                    &&& 0 <= i < tasks.len()
                    &&& 0 <= j < tasks.len()
                    &&& tasks[i].deps.contains(tasks[j].id)
                    &&& !crossdag::reference(tasks[j].id)
                }
        },
{
}

proof fn lemma_place_of(tasks: Seq<NodeModel>, id: Seq<char>, from: int)
    requires
        0 <= from <= tasks.len(),
    ensures
        match place_of(tasks, id, from) {
            Some(j) => from <= j < tasks.len() && tasks[j].id == id,
            None => forall|j: int| from <= j < tasks.len() ==> (#[trigger] tasks[j]).id != id,
        },
    decreases tasks.len() - from,
{
    if from < tasks.len() {
        lemma_place_of(tasks, id, from + 1);
    }
}

/// Where an order of names says its places stand.
spec fn stands(tasks: Seq<NodeModel>, deps: Seq<Seq<char>>, list: Seq<int>, at: Seq<int>) -> bool {
    &&& at.len() == list.len()
    &&& forall|k: int|
        0 <= k < at.len() ==> 0 <= #[trigger] at[k] < deps.len() && 0 <= list[k] < tasks.len()
            && tasks[list[k]].id == deps[at[k]] && !crossdag::reference(deps[at[k]])
    &&& forall|j: int, k: int| 0 <= j < k < at.len() ==> #[trigger] at[j] < #[trigger] at[k]
    &&& forall|d: int|
        0 <= d < deps.len() && !at.contains(d) ==> crossdag::reference(#[trigger] deps[d])
            || forall|j: int| 0 <= j < tasks.len() ==> (#[trigger] tasks[j]).id != deps[d]
}

proof fn lemma_named_by(tasks: Seq<NodeModel>, deps: Seq<Seq<char>>) -> (at: Seq<int>)
    ensures
        stands(tasks, deps, named_by(tasks, deps), at),
    decreases deps.len(),
{
    if deps.len() == 0 {
        Seq::empty()
    } else {
        let before = deps.drop_last();
        let earlier = lemma_named_by(tasks, before);
        let n = before.len() as int;
        lemma_place_of(tasks, deps.last(), 0);
        let list = named_by(tasks, deps);
        let place = place_of(tasks, deps.last(), 0);
        let at = if place is Some && !crossdag::reference(deps.last()) {
            earlier.push(n)
        } else {
            earlier
        };
        assert forall|d: int| 0 <= d < deps.len() && !at.contains(d) implies crossdag::reference(
            #[trigger] deps[d],
        ) || forall|j: int| 0 <= j < tasks.len() ==> (#[trigger] tasks[j]).id != deps[d] by {
            if d < n {
                if earlier.contains(d) {
                    let k = choose|k: int| 0 <= k < earlier.len() && earlier[k] == d;
                    assert(at[k] == d);
                }
                assert(before[d] == deps[d]);
            } else if place is Some && !crossdag::reference(deps.last()) {
                assert(at[earlier.len() as int] == n);
            }
        }
        assert forall|k: int| 0 <= k < at.len() implies 0 <= #[trigger] at[k] < deps.len() && 0
            <= list[k] < tasks.len() && tasks[list[k]].id == deps[at[k]] && !crossdag::reference(
            deps[at[k]],
        ) by {
            if k < earlier.len() {
                assert(earlier[k] == at[k]);
                assert(before[at[k]] == deps[at[k]]);
            }
        }
        at
    }
}

proof fn lemma_round_is_first(tasks: Seq<NodeModel>, list: Seq<int>, from: int)
    requires
        0 <= from <= list.len(),
    ensures
        match first_round(tasks, list, from) {
            Some(i) => exists|k: int|
                from <= k < list.len() && #[trigger] list[k] == i && leads_round(tasks, i)
                    && forall|m: int|
                    from <= m < k ==> !leads_round(tasks, #[trigger] list[m]),
            None => forall|k: int|
                from <= k < list.len() ==> !leads_round(tasks, #[trigger] list[k]),
        },
    decreases list.len() - from,
{
    if from < list.len() {
        lemma_round_is_first(tasks, list, from + 1);
        if leads_round(tasks, list[from]) {
            assert(list[from] == list[from]);
        } else if first_round(tasks, list, from + 1) is Some {
            let i = first_round(tasks, list, from + 1)->0;
            let k = choose|k: int|
                from + 1 <= k < list.len() && #[trigger] list[k] == i && leads_round(tasks, i)
                    && forall|m: int|
                    from + 1 <= m < k ==> !leads_round(tasks, #[trigger] list[m]);
            assert(list[k] == i);
        }
    }
}

/// The search for a cycle begins at the first node, as the plan wrote them, that leads
/// into one.
pub proof fn law_the_search_begins_at_the_first_node_that_leads_round(
    tasks: Seq<NodeModel>,
    i: int,
)
    requires
        0 <= i < tasks.len(),
        leads_round(tasks, i),
        forall|j: int| 0 <= j < i ==> !#[trigger] leads_round(tasks, j),
    ensures
        trail(tasks, 0) == seq![i],
{
    let all = Seq::new(tasks.len(), |k: int| k);
    lemma_round_is_first(tasks, all, 0);
    assert(all[i] == i);
    let r = first_round(tasks, all, 0);
    assert(r is Some);
    let k = choose|k: int|
        0 <= k < all.len() && #[trigger] all[k] == r->0 && leads_round(tasks, r->0) && forall|m: int|
            0 <= m < k ==> !leads_round(tasks, #[trigger] all[m]);
    assert(all[k] == k);
    if k > i {
        assert(!leads_round(tasks, all[i]));
    }
    if k < i {
        assert(!leads_round(tasks, k));
    }
}

/// And from each node it goes on to the first dependency, as the node declares them, that
/// leads into one.
pub proof fn law_the_search_goes_on_to_the_first_dependency_that_leads_round(
    tasks: Seq<NodeModel>,
    n: nat,
    d: int,
    j: int,
)
    requires
        unique_ids(tasks),
        0 <= trail(tasks, n).last() < tasks.len(),
        0 <= d < tasks[trail(tasks, n).last()].deps.len(),
        0 <= j < tasks.len(),
        tasks[trail(tasks, n).last()].deps[d] == tasks[j].id,
        !crossdag::reference(tasks[j].id),
        leads_round(tasks, j),
        forall|e: int, k: int|
            0 <= e < d && 0 <= k < tasks.len() && #[trigger] tasks[trail(tasks, n).last()].deps[e]
                == (#[trigger] tasks[k]).id && !crossdag::reference(tasks[k].id) ==> !leads_round(
                tasks,
                k,
            ),
    ensures
        trail(tasks, n + 1) == trail(tasks, n).push(j),
{
    let i = trail(tasks, n).last();
    let deps = tasks[i].deps;
    let list = named_by(tasks, deps);
    let at = lemma_named_by(tasks, deps);
    lemma_round_is_first(tasks, list, 0);
    assert(at.contains(d)) by {
        if !at.contains(d) {
            assert(crossdag::reference(deps[d]) || forall|k: int|
                0 <= k < tasks.len() ==> (#[trigger] tasks[k]).id != deps[d]);
            assert(tasks[j].id == deps[d]);
        }
    }
    let p = choose|p: int| 0 <= p < at.len() && at[p] == d;
    assert(tasks[list[p]].id == deps[at[p]]);
    assert(list[p] == j) by {
        let q = list[p];
        if q < j {
            assert(tasks[q].id != tasks[j].id);
        }
        if j < q {
            assert(tasks[j].id != tasks[q].id);
        }
    }
    let r = first_round(tasks, list, 0);
    assert(r is Some);
    let k = choose|k: int|
        0 <= k < list.len() && #[trigger] list[k] == r->0 && leads_round(tasks, r->0) && forall|
            m: int,
        |
            0 <= m < k ==> !leads_round(tasks, #[trigger] list[m]);
    if k > p {
        assert(!leads_round(tasks, list[p]));
    }
    if k < p {
        assert(at[k] < at[p]);
        assert(deps[at[k]] == tasks[list[k]].id);
        assert(!leads_round(tasks, list[k]));
    }
    assert(trail(tasks, n + 1) == trail(tasks, n).push(r->0));
}

/// Where a node leads round: a walk along dependencies from it meets a node twice. A node
/// of a cycle does, and in a plan without a cycle none does.
pub proof fn law_only_a_cycle_leads_round(tasks: Seq<NodeModel>, walk: Seq<int>, i: int)
    ensures
        is_cycle(tasks, walk) ==> leads_round(tasks, walk[0]),
        acyclic(tasks) ==> !leads_round(tasks, i),
{
    if is_cycle(tasks, walk) {
        assert(walk.drop_last()[0] == walk.last());
        assert(rounds(tasks, walk[0], walk));
    }
    if leads_round(tasks, i) {
        let on = choose|on: Seq<int>| #[trigger] rounds(tasks, i, on);
        let k = choose|k: int| 0 <= k < on.drop_last().len() && on.drop_last()[k] == on.last();
        let round = on.subrange(k, on.len() as int);
        assert forall|m: int| 0 <= m < round.len() - 1 implies edge(
            tasks,
            #[trigger] round[m],
            round[m + 1],
        ) by {
            assert(edge(tasks, on[k + m], on[k + m + 1]));
        }
        assert(is_cycle(tasks, round));
    }
}

} // verus!
