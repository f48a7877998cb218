//! The order a workstream's steps run in.
//!
//! Several steps share one branch and run serially in topological order, because
//! concurrent writers cannot safely share a worktree. Ties are broken by the
//! order the plan wrote them, which keeps a workstream reproducible.
use vstd::prelude::*;

use crate::controls::{NodeControls, NO_TURN};
use crate::names::NameMap;
use crate::plan::{copy_text, step_models, Node, NodeModel, Step, StepModel};

verus! {

/// The steps a node dispatches: its own, or the one a node with none amounts to.
pub open spec fn declared(n: NodeModel) -> Seq<StepModel> {
    match n.steps {
        Some(steps) => steps,
        None => seq![implicit(n)],
    }
}

/// The one step a node that declares none amounts to: its own persona and task,
/// on its own branch.
pub open spec fn implicit(n: NodeModel) -> StepModel {
    StepModel {
        id: n.id,
        kind: n.kind,
        task: n.task,
        persona: n.persona,
        deps: Seq::empty(),
        max_turns: n.max_turns,
        expects_no_diff: n.expects_no_diff,
        executor: n.executor,
        agent_graph: n.agent_graph,
    }
}

/// A step with this id has been placed.
pub open spec fn placed(steps: Seq<StepModel>, order: Seq<int>, id: Seq<char>) -> bool {
    exists|k: int| 0 <= k < order.len() && steps[#[trigger] order[k]].id == id
}

/// The list holds a step with this id.
pub open spec fn holds_step(steps: Seq<StepModel>, id: Seq<char>) -> bool {
    exists|j: int| 0 <= j < steps.len() && #[trigger] steps[j].id == id
}

/// Every dependency of a step that is a step of the node has been placed.
pub open spec fn unblocked(steps: Seq<StepModel>, order: Seq<int>, i: int) -> bool {
    forall|d: int|
        0 <= d < steps[i].deps.len() ==> placed(steps, order, #[trigger] steps[i].deps[d])
            || !holds_step(steps, steps[i].deps[d])
}

/// A step can be placed: it has not been, and every dependency of it that is a
/// step of the node has.
pub open spec fn can_come(steps: Seq<StepModel>, order: Seq<int>, i: int) -> bool {
    &&& 0 <= i < steps.len()
    &&& !placed(steps, order, steps[i].id)
    &&& unblocked(steps, order, i)
}

/// The step that comes next: the first, as the plan wrote them, that can be
/// placed.
pub open spec fn comes_next(steps: Seq<StepModel>, order: Seq<int>, i: int) -> bool {
    &&& can_come(steps, order, i)
    &&& forall|j: int| 0 <= j < i ==> !#[trigger] can_come(steps, order, j)
}

/// Each place of an order holds the step that comes next there.
pub open spec fn first_come(steps: Seq<StepModel>, order: Seq<int>) -> bool {
    forall|k: int|
        0 <= k < order.len() ==> comes_next(steps, order.take(k), #[trigger] order[k])
}

/// An order of every step in which each place holds the step that comes next.
pub open spec fn full_order(steps: Seq<StepModel>, order: Seq<int>) -> bool {
    order.len() == steps.len() && first_come(steps, order)
}

/// The steps have an order: every one of them is placed.
pub open spec fn orderable(steps: Seq<StepModel>) -> bool {
    exists|order: Seq<int>| full_order(steps, order)
}

/// The order steps are dispatched in, as positions in the list.
pub open spec fn step_order(steps: Seq<StepModel>) -> Seq<int> {
    choose|order: Seq<int>| full_order(steps, order)
}

/// The steps themselves, in the order they are dispatched.
pub open spec fn in_order(steps: Seq<StepModel>) -> Seq<StepModel> {
    step_order(steps).map_values(|i: int| steps[i])
}

/// What a node whose steps have no order is told.
pub open spec fn step_cycle(id: Seq<char>) -> Seq<char> {
    "node '"@ + id + "': its steps have a dependency cycle"@
}

/// Two orders whose places each hold what comes next agree as far as both go.
proof fn lemma_one_order(steps: Seq<StepModel>, one: Seq<int>, other: Seq<int>, n: int)
    requires
        first_come(steps, one),
        first_come(steps, other),
        0 <= n <= one.len(),
        n <= other.len(),
    ensures
        one.take(n) == other.take(n),
    decreases n,
{
    if n > 0 {
        lemma_one_order(steps, one, other, n - 1);
        let k = n - 1;
        let (a, b) = (one[k], other[k]);
        let before = one.take(k);
        assert(comes_next(steps, before, a));
        assert(comes_next(steps, other.take(k), b));
        assert(can_come(steps, before, a) && can_come(steps, before, b));
        assert(a == b);
        assert(one.take(n) =~= other.take(n)) by {
            assert forall|j: int| 0 <= j < n implies one.take(n)[j] == other.take(n)[j] by {
                if j < k {
                    assert(one.take(k)[j] == other.take(k)[j]);
                }
            }
        }
    }
}

/// Where nothing can come next before every step is placed, there is no order.
proof fn lemma_no_order(steps: Seq<StepModel>, order: Seq<int>)
    requires
        first_come(steps, order),
        order.len() < steps.len(),
        forall|i: int| !#[trigger] can_come(steps, order, i),
    ensures
        !orderable(steps),
{
    if orderable(steps) {
        let full = step_order(steps);
        assert(full_order(steps, full));
        let n = order.len() as int;
        lemma_one_order(steps, order, full, n);
        assert(order.take(n) =~= order);
        assert(comes_next(steps, full.take(n), full[n]));
        assert(can_come(steps, order, full[n]));
    }
}

/// The step that comes next extends an order.
proof fn lemma_extended(steps: Seq<StepModel>, order: Seq<int>, i: int)
    requires
        first_come(steps, order),
        comes_next(steps, order, i),
    ensures
        first_come(steps, order.push(i)),
{
    let after = order.push(i);
    assert forall|k: int| 0 <= k < after.len() implies comes_next(
        steps,
        after.take(k),
        #[trigger] after[k],
    ) by {
        if k < order.len() {
            assert(after.take(k) =~= order.take(k));
            assert(after[k] == order[k]);
        } else {
            assert(after.take(k) =~= order);
        }
    }
}

/// An order holds positions of the list, none of them twice.
proof fn lemma_positions(steps: Seq<StepModel>, order: Seq<int>)
    requires
        first_come(steps, order),
    ensures
        order.no_duplicates(),
        order.len() <= steps.len(),
        forall|k: int| 0 <= k < order.len() ==> 0 <= #[trigger] order[k] < steps.len(),
{
    assert forall|k: int| 0 <= k < order.len() implies 0 <= #[trigger] order[k] < steps.len() by {
        assert(comes_next(steps, order.take(k), order[k]));
    }
    assert forall|j: int, k: int| 0 <= j < k < order.len() implies order[j] != order[k] by {
        assert(comes_next(steps, order.take(k), order[k]));
        assert(order.take(k)[j] == order[j]);
        if order[j] == order[k] {
            assert(placed(steps, order.take(k), steps[order[k]].id));
        }
    }
    let all = vstd::set_lib::set_int_range(0, steps.len() as int);
    vstd::set_lib::lemma_int_range(0, steps.len() as int);
    assert(order.to_set().subset_of(all));
    order.unique_seq_to_set();
    vstd::set_lib::lemma_len_subset(order.to_set(), all);
}

fn implicit_step(node: &Node) -> (r: Step)
    ensures
        r@ == implicit(node@),
{
    Step {
        id: node.id.clone(),
        kind: node.kind,
        task: copy_text(&node.task),
        persona: copy_text(&node.persona),
        deps: Vec::new(),
        max_turns: node.max_turns,
        expects_no_diff: node.expects_no_diff,
        executor: copy_text(&node.executor),
        agent_graph: copy_text(&node.agent_graph),
    }
}

/// A node's steps in topological order, or why they have none.
pub fn ordered_steps(node: &Node) -> (r: Result<Vec<Step>, String>)
    ensures
        match r {
            Ok(steps) => (node@.steps is Some ==> orderable(node@.steps->0)) && step_models(steps@)
                == (match node@.steps {
                Some(declared) => in_order(declared),
                None => seq![implicit(node@)],
            }),
            Err(why) => node@.steps is Some && !orderable(node@.steps->0) && why@ == step_cycle(
                node.id@,
            ),
        },
{
    let steps: &Vec<Step> = match &node.steps {
        Some(steps) => steps,
        None => {
            let mut only: Vec<Step> = Vec::new();
            only.push(implicit_step(node));
            assert(step_models(only@) =~= seq![implicit(node@)]);
            return Ok(only);
        },
    };
    let ghost model = step_models(steps@);
    let mut ids: NameMap<bool> = NameMap::new();
    let mut i: usize = 0;
    while i < steps.len()
        invariant
            i <= steps@.len(),
            model == step_models(steps@),
            ids.wf(),
            forall|q: Seq<char>| #[trigger]
                ids@.contains_key(q) <==> exists|j: int| 0 <= j < i && #[trigger] model[j].id == q,
        decreases steps@.len() - i,
    {
        let ghost was = ids@;
        assert(model[i as int] == steps@[i as int]@);
        ids.insert(steps[i].id.clone(), true);
        proof {
            assert forall|q: Seq<char>| #[trigger] ids@.contains_key(q) <==> exists|j: int|
                0 <= j < i + 1 && #[trigger] model[j].id == q by {
                if was.contains_key(q) {
                    let j = choose|j: int| 0 <= j < i && #[trigger] model[j].id == q;
                    assert(model[j].id == q);
                } else if ids@.contains_key(q) {
                    assert(model[i as int].id == q);
                }
                if exists|j: int| 0 <= j < i + 1 && #[trigger] model[j].id == q {
                    let j = choose|j: int| 0 <= j < i + 1 && #[trigger] model[j].id == q;
                    if j < i {
                        assert(was.contains_key(q));
                    }
                }
            }
        }
        i += 1;
    }
    let mut settled: NameMap<bool> = NameMap::new();
    let mut out: Vec<Step> = Vec::new();
    let ghost mut order: Seq<int> = Seq::empty();
    while out.len() < steps.len()
        invariant
            node@.steps == Some(model),
            model == step_models(steps@),
            forall|q: Seq<char>| #[trigger] ids@.contains_key(q) <==> holds_step(model, q),
            settled.wf(),
            first_come(model, order),
            step_models(out@) == order.map_values(|i: int| model[i]),
            out@.len() == order.len(),
            order.len() <= model.len(),
            forall|q: Seq<char>| #[trigger]
                settled@.contains_key(q) <==> placed(model, order, q),
        decreases steps@.len() - out@.len(),
    {
        let mut i: usize = 0;
        while i < steps.len() && (settled.contains(steps[i].id.as_str()) || !all_settled(
            &steps[i],
            &settled,
            &ids,
        ))
            invariant
                i <= steps@.len(),
                model == step_models(steps@),
                forall|q: Seq<char>| #[trigger] ids@.contains_key(q) <==> holds_step(model, q),
                settled.wf(),
                forall|q: Seq<char>| #[trigger]
                    settled@.contains_key(q) <==> placed(model, order, q),
                forall|j: int| 0 <= j < i ==> !#[trigger] can_come(model, order, j),
            decreases steps@.len() - i,
        {
            assert(model[i as int] == steps@[i as int]@);
            i += 1;
        }
        if i == steps.len() {
            proof {
                lemma_no_order(model, order);
            }
            let mut why: String = String::from_str("node '");
            why.append(node.id.as_str());
            why.append("': its steps have a dependency cycle");
            return Err(why);
        }
        let step = &steps[i];
        let ghost was = order;
        let ghost were = out@;
        let ghost had = settled@;
        assert(model[i as int] == step@);
        assert(comes_next(model, order, i as int));
        settled.insert(step.id.clone(), true);
        let copy = step.clone();
        out.push(copy);
        proof {
            lemma_extended(model, order, i as int);
            order = order.push(i as int);
            lemma_positions(model, order);
            assert(step_models(out@) =~= step_models(were).push(copy@));
            assert(order.map_values(|i: int| model[i]) =~= was.map_values(|i: int| model[i]).push(
                model[i as int],
            ));
            assert forall|q: Seq<char>| #[trigger]
                settled@.contains_key(q) <==> placed(model, order, q) by {
                if had.contains_key(q) {
                    let k = choose|k: int|
                        0 <= k < was.len() && model[#[trigger] was[k]].id == q;
                    assert(model[order[k]].id == q);
                } else if settled@.contains_key(q) {
                    assert(model[order[was.len() as int]].id == q);
                }
                if placed(model, order, q) {
                    let k = choose|k: int|
                        0 <= k < order.len() && model[#[trigger] order[k]].id == q;
                    if k < was.len() {
                        assert(model[was[k]].id == q);
                        assert(placed(model, was, q));
                    }
                }
            }
        }
    }
    proof {
        law_the_order_is_the_only_one(model, order);
    }
    Ok(out)
}

fn all_settled(step: &Step, settled: &NameMap<bool>, ids: &NameMap<bool>) -> (r: bool)
    ensures
        r == (forall|d: int|
            0 <= d < step@.deps.len() ==> settled@.contains_key(#[trigger] step@.deps[d])
                || !ids@.contains_key(step@.deps[d])),
{
    let mut d: usize = 0;
    while d < step.deps.len()
        invariant
            d <= step.deps@.len(),
            forall|e: int|
                0 <= e < d ==> settled@.contains_key(#[trigger] step@.deps[e])
                    || !ids@.contains_key(step@.deps[e]),
        decreases step.deps@.len() - d,
    {
        let dep = step.deps[d].as_str();
        assert(step@.deps[d as int] == dep@);
        if !settled.contains(dep) && ids.contains(dep) {
            return false;
        }
        d += 1;
    }
    true
}

/// The first step of a list whose declaration no dispatch can run under.
pub open spec fn undispatchable(steps: Seq<StepModel>, from: int) -> Option<Seq<char>>
    decreases steps.len() - from,
{
    if from < 0 || from >= steps.len() {
        None
    } else if steps[from].max_turns == Some(0u32) {
        Some(steps[from].id)
    } else {
        undispatchable(steps, from + 1)
    }
}

/// The steps a node dispatches, in order.
pub open spec fn dispatch_order(n: NodeModel) -> Seq<StepModel> {
    match n.steps {
        Some(declared) => in_order(declared),
        None => seq![implicit(n)],
    }
}

/// What stops a workstream before it starts: its steps have no order, or one of
/// them declares something no dispatch can honour.
pub open spec fn workstream_stop(n: NodeModel) -> Option<Seq<char>> {
    if n.steps is Some && !orderable(n.steps->0) {
        Some(step_cycle(n.id))
    } else {
        match undispatchable(dispatch_order(n), 0) {
            Some(step) => Some("node '"@ + n.id + "': step '"@ + step + "': "@ + NO_TURN@),
            None => None,
        }
    }
}

/// The steps of a list of steps and controls.
pub open spec fn steps_of(list: Seq<(Step, NodeControls)>) -> Seq<StepModel> {
    list.map_values(|p: (Step, NodeControls)| p.0@)
}

/// A node's steps in dispatch order, each with the controls its dispatch runs
/// under, or why the node has none it can run.
pub fn dispatchable_steps(node: &Node) -> (r: Result<Vec<(Step, NodeControls)>, String>)
    ensures
        match r {
            Ok(steps) => {
                &&& workstream_stop(node@) is None
                &&& steps_of(steps@) == dispatch_order(node@)
                &&& forall|i: int|
                    0 <= i < steps@.len() ==> (#[trigger] steps@[i]).1.max_turns
                        == steps@[i].0.max_turns && steps@[i].1.wf()
            },
            Err(why) => workstream_stop(node@) == Some(why@),
        },
{
    let steps = match ordered_steps(node) {
        Ok(steps) => steps,
        Err(why) => {
            return Err(why);
        },
    };
    let ghost order = dispatch_order(node@);
    let mut out: Vec<(Step, NodeControls)> = Vec::new();
    let mut i: usize = 0;
    while i < steps.len()
        invariant
            i <= steps@.len(),
            order == dispatch_order(node@),
            step_models(steps@) == order,
            node@.steps is Some ==> orderable(node@.steps->0),
            steps_of(out@) == order.take(i as int),
            undispatchable(order, 0) == undispatchable(order, i as int),
            forall|j: int|
                0 <= j < out@.len() ==> (#[trigger] out@[j]).1.max_turns == out@[j].0.max_turns
                    && out@[j].1.wf(),
        decreases steps@.len() - i,
    {
        assert(order[i as int] == steps@[i as int]@);
        match NodeControls::of_step(&steps[i]) {
            Ok(controls) => {
                let copy = steps[i].clone();
                let ghost was = out@;
                out.push((copy, controls));
                assert(steps_of(out@) =~= steps_of(was).push(copy@));
                assert(copy@.max_turns == steps@[i as int]@.max_turns);
            },
            Err(reason) => {
                let mut why: String = String::from_str("node '");
                why.append(node.id.as_str());
                why.append("': step '");
                why.append(steps[i].id.as_str());
                why.append("': ");
                why.append(reason.as_str());
                return Err(why);
            },
        }
        i += 1;
        assert(steps_of(out@) =~= order.take(i as int));
    }
    assert(order.take(order.len() as int) =~= order);
    Ok(out)
}

/// An arrangement of every step in which none comes before one it depends on.
pub open spec fn serial(steps: Seq<StepModel>, order: Seq<int>) -> bool {
    &&& order.len() == steps.len()
    &&& order.no_duplicates()
    &&& forall|k: int| 0 <= k < order.len() ==> 0 <= #[trigger] order[k] < steps.len()
    &&& forall|k: int|
        0 <= k < order.len() ==> unblocked(steps, order.take(k), #[trigger] order[k])
}

/// Steps that have an order are dispatched serially in a topological one: each of
/// them once, and none before a step it depends on.
pub proof fn law_steps_run_in_topological_order(steps: Seq<StepModel>)
    requires
        orderable(steps),
    ensures
        serial(steps, step_order(steps)),
{
    let order = step_order(steps);
    assert(full_order(steps, order));
    lemma_positions(steps, order);
    assert forall|k: int| 0 <= k < order.len() implies unblocked(
        steps,
        order.take(k),
        #[trigger] order[k],
    ) by {
        assert(comes_next(steps, order.take(k), order[k]));
    }
}

/// Ties are broken by the order the plan wrote the steps in: no step that can be
/// placed stands, as written, before the one that is.
pub proof fn law_ties_go_to_the_step_written_first(steps: Seq<StepModel>, k: int, i: int)
    requires
        orderable(steps),
        0 <= k < steps.len(),
        can_come(steps, step_order(steps).take(k), i),
    ensures
        step_order(steps)[k] <= i,
{
    let order = step_order(steps);
    assert(full_order(steps, order));
    assert(comes_next(steps, order.take(k), order[k]));
}

/// The steps have at most one order, so a workstream is reproducible.
pub proof fn law_the_order_is_the_only_one(steps: Seq<StepModel>, order: Seq<int>)
    requires
        full_order(steps, order),
    ensures
        orderable(steps),
        step_order(steps) == order,
{
    let chosen = step_order(steps);
    assert(full_order(steps, chosen));
    lemma_one_order(steps, order, chosen, order.len() as int);
    assert(order.take(order.len() as int) =~= order);
    assert(chosen.take(order.len() as int) =~= chosen);
}

/// Steps with distinct ids have an order wherever any exists: only a dependency
/// cycle is reported as one.
pub proof fn law_any_topological_order_is_found(steps: Seq<StepModel>, witness: Seq<int>)
    requires
        serial(steps, witness),
        forall|i: int, j: int|
            0 <= i < j < steps.len() ==> #[trigger] steps[i].id != #[trigger] steps[j].id,
    ensures
        orderable(steps),
{
    let order = lemma_grown(steps, witness, steps.len());
    assert(full_order(steps, order));
}

/// Steps that have a topological order have an order of any length up to their
/// number in which each place holds what comes next.
proof fn lemma_grown(steps: Seq<StepModel>, witness: Seq<int>, n: nat) -> (order: Seq<int>)
    requires
        serial(steps, witness),
        forall|i: int, j: int|
            0 <= i < j < steps.len() ==> #[trigger] steps[i].id != #[trigger] steps[j].id,
        n <= steps.len(),
    ensures
        order.len() == n,
        first_come(steps, order),
    decreases n,
{
    if n == 0 {
        Seq::empty()
    } else {
        let before = lemma_grown(steps, witness, (n - 1) as nat);
        if forall|i: int| !#[trigger] can_come(steps, before, i) {
            // The first step of the witness that is not placed has every dependency
            // placed, and could have been.
            lemma_all_placed(steps, before, witness, 0);
        }
        let i = choose|i: int| #[trigger] can_come(steps, before, i);
        let next = lemma_first(steps, before, i);
        lemma_extended(steps, before, next);
        before.push(next)
    }
}

/// Where some step can be placed, one of them is written first.
proof fn lemma_first(steps: Seq<StepModel>, order: Seq<int>, i: int) -> (next: int)
    requires
        can_come(steps, order, i),
    ensures
        comes_next(steps, order, next),
    decreases i,
{
    if forall|j: int| 0 <= j < i ==> !#[trigger] can_come(steps, order, j) {
        i
    } else {
        let j = choose|j: int| 0 <= j < i && #[trigger] can_come(steps, order, j);
        lemma_first(steps, order, j)
    }
}

proof fn lemma_all_placed(
    steps: Seq<StepModel>,
    order: Seq<int>,
    witness: Seq<int>,
    k: int,
)
    requires
        serial(steps, witness),
        forall|i: int, j: int|
            0 <= i < j < steps.len() ==> #[trigger] steps[i].id != #[trigger] steps[j].id,
        first_come(steps, order),
        forall|i: int| !#[trigger] can_come(steps, order, i),
        0 <= k <= witness.len(),
        forall|j: int| 0 <= j < k ==> placed(steps, order, steps[#[trigger] witness[j]].id),
    ensures
        order.len() >= steps.len(),
    decreases witness.len() - k,
{
    if k == witness.len() {
        // Every position is placed, so the order is no shorter than the list.
        lemma_positions(steps, order);
        assert(witness.to_set().subset_of(order.to_set())) by {
            assert forall|i: int| #[trigger] witness.to_set().contains(i) implies order.to_set().contains(
                i,
            ) by {
                let j = choose|j: int| 0 <= j < witness.len() && witness[j] == i;
                assert(placed(steps, order, steps[witness[j]].id));
                let q = choose|q: int|
                    0 <= q < order.len() && steps[#[trigger] order[q]].id == steps[i].id;
                if order[q] < i {
                    assert(steps[order[q]].id != steps[i].id);
                } else if i < order[q] {
                    assert(steps[i].id != steps[order[q]].id);
                }
                assert(order[q] == i);
            }
        }
        witness.unique_seq_to_set();
        order.unique_seq_to_set();
        vstd::set_lib::lemma_len_subset(witness.to_set(), order.to_set());
    } else {
        let i = witness[k];
        if !placed(steps, order, steps[i].id) {
            assert(unblocked(steps, order, i)) by {
                assert forall|d: int| 0 <= d < steps[i].deps.len() implies placed(
                    steps,
                    order,
                    #[trigger] steps[i].deps[d],
                ) || !holds_step(steps, steps[i].deps[d]) by {
                    let id = steps[i].deps[d];
                    assert(unblocked(steps, witness.take(k), i));
                    if holds_step(steps, id) {
                        let j = choose|j: int|
                            0 <= j < witness.take(k).len() && steps[#[trigger] witness.take(
                                k,
                            )[j]].id == id;
                        assert(witness[j] == witness.take(k)[j]);
                        assert(placed(steps, order, steps[witness[j]].id));
                    }
                }
            }
            assert(can_come(steps, order, i));
        }
        lemma_all_placed(steps, order, witness, k + 1);
    }
}

/// A node without steps is dispatched as one step that is the node itself: its id, its
/// kind, its task, its persona and what it runs under, depending on nothing.
pub proof fn law_a_node_without_steps_is_one_step(n: NodeModel)
    requires
        n.steps is None,
    ensures
        dispatch_order(n).len() == 1,
        ({
            let step = dispatch_order(n)[0];
            &&& step.id == n.id
            &&& step.kind == n.kind
            &&& step.task == n.task
            &&& step.persona == n.persona
            &&& step.max_turns == n.max_turns
            &&& step.expects_no_diff == n.expects_no_diff
            &&& step.executor == n.executor
            &&& step.agent_graph == n.agent_graph
            &&& step.deps.len() == 0
        }),
{
}

/// Every step is dispatched once, and behind each step of the node it depends on.
pub proof fn law_a_step_comes_behind_what_it_depends_on(n: NodeModel, k: int, d: int, j: int)
    requires
        n.steps is Some,
        orderable(n.steps->0),
        0 <= k < dispatch_order(n).len(),
        0 <= d < dispatch_order(n)[k].deps.len(),
        0 <= j < n.steps->0.len(),
        n.steps->0[j].id == dispatch_order(n)[k].deps[d],
    ensures
        dispatch_order(n).len() == n.steps->0.len(),
        dispatch_order(n).to_multiset() == n.steps->0.to_multiset(),
        exists|m: int|
            0 <= m < k && (#[trigger] dispatch_order(n)[m]).id == dispatch_order(n)[k].deps[d],
{
    let steps = n.steps->0;
    let order = step_order(steps);
    law_steps_run_in_topological_order(steps);
    lemma_rearranged(steps, order);
    let i = order[k];
    assert(dispatch_order(n)[k] == steps[i]);
    assert(unblocked(steps, order.take(k), i));
    assert(steps[i].deps[d] == dispatch_order(n)[k].deps[d]);
    assert(holds_step(steps, steps[i].deps[d]));
    assert(placed(steps, order.take(k), steps[i].deps[d]));
    let m = choose|m: int|
        0 <= m < order.take(k).len() && steps[#[trigger] order.take(k)[m]].id == steps[i].deps[d];
    assert(order.take(k)[m] == order[m]);
    assert(dispatch_order(n)[m] == steps[order[m]]);
}

/// A list taken in an order of all its positions holds what the list holds.
proof fn lemma_rearranged(steps: Seq<StepModel>, order: Seq<int>)
    requires
        order.len() == steps.len(),
        order.no_duplicates(),
        forall|k: int| 0 <= k < order.len() ==> 0 <= #[trigger] order[k] < steps.len(),
    ensures
        order.map_values(|i: int| steps[i]).to_multiset() == steps.to_multiset(),
{
    let positions = Seq::new(steps.len(), |i: int| i);
    lemma_all_positions(order, steps.len());
    lemma_mapped(order, positions, steps);
    assert(positions.map_values(|i: int| steps[i]) =~= steps);
}

proof fn lemma_all_positions(order: Seq<int>, n: nat)
    requires
        order.len() == n,
        order.no_duplicates(),
        forall|k: int| 0 <= k < order.len() ==> 0 <= #[trigger] order[k] < n,
    ensures
        order.to_multiset() == Seq::new(n, |i: int| i).to_multiset(),
    decreases n,
{
    broadcast use vstd::seq_lib::group_to_multiset_ensures;

    let positions = Seq::new(n, |i: int| i);
    let a = order.to_multiset();
    let b = positions.to_multiset();
    assert(positions.no_duplicates());
    order.lemma_multiset_has_no_duplicates();
    positions.lemma_multiset_has_no_duplicates();
    let s = order.to_set();
    let t = vstd::set_lib::set_int_range(0, n as int);
    vstd::set_lib::lemma_int_range(0, n as int);
    order.unique_seq_to_set();
    assert(s.subset_of(t)) by {
        assert forall|x: int| s.contains(x) implies t.contains(x) by {
            let k = choose|k: int| 0 <= k < order.len() && order[k] == x;
            assert(0 <= order[k] < n);
        }
    }
    vstd::set_lib::lemma_subset_equality(s, t);
    assert forall|x: int| a.count(x) == b.count(x) by {
        assert(order.contains(x) <==> 0 <= x < n) by {
            assert(s.contains(x) <==> t.contains(x));
        }
        assert(positions.contains(x) <==> 0 <= x < n) by {
            if 0 <= x < n {
                assert(positions[x] == x);
            }
        }
        assert(a.contains(x) <==> order.contains(x));
        assert(b.contains(x) <==> positions.contains(x));
        if a.contains(x) {
            assert(a.count(x) == 1);
        }
        if b.contains(x) {
            assert(b.count(x) == 1);
        }
    }
    assert(a =~= b);
}

proof fn lemma_mapped(one: Seq<int>, other: Seq<int>, steps: Seq<StepModel>)
    requires
        one.to_multiset() == other.to_multiset(),
    ensures
        one.map_values(|i: int| steps[i]).to_multiset() == other.map_values(
            |i: int| steps[i],
        ).to_multiset(),
    decreases one.len(),
{
    broadcast use vstd::seq_lib::group_to_multiset_ensures;

    let f = |i: int| steps[i];
    if one.len() == 0 {
        assert(one.to_multiset().len() == 0);
        assert(other.len() == other.to_multiset().len());
        assert(one.map_values(f) =~= other.map_values(f));
    } else {
        let x = one.last();
        assert(one.to_multiset().contains(x)) by {
            assert(one.contains(x));
        }
        assert(other.contains(x));
        let k = choose|k: int| 0 <= k < other.len() && other[k] == x;
        let less = other.remove(k);
        let front = one.drop_last();
        assert(one =~= front.push(x));
        assert(other =~= less.insert(k, x));
        assert(front.to_multiset() =~= less.to_multiset()) by {
            assert(one.to_multiset() =~= front.to_multiset().insert(x));
            assert(other.to_multiset() =~= less.to_multiset().insert(x));
            assert forall|y: int| front.to_multiset().count(y) == less.to_multiset().count(y) by {
                assert(one.to_multiset().count(y) == other.to_multiset().count(y));
            }
        }
        lemma_mapped(front, less, steps);
        assert(one.map_values(f) =~= front.map_values(f).push(f(x)));
        assert(other.map_values(f) =~= less.map_values(f).insert(k, f(x)));
        assert(one.map_values(f).to_multiset() =~= front.map_values(f).to_multiset().insert(f(x)));
        assert(other.map_values(f).to_multiset() =~= less.map_values(f).to_multiset().insert(f(x)));
    }
}

/// A tie goes to the step the plan wrote first: whatever is written before the step that
/// takes a place has been dispatched already, or waits for a step that has not been.
pub proof fn law_what_is_written_first_goes_first(steps: Seq<StepModel>, k: int, i: int)
    requires
        orderable(steps),
        0 <= k < steps.len(),
        0 <= i < step_order(steps)[k],
        i < steps.len(),
    ensures
        ({
            let order = step_order(steps);
            ||| exists|m: int| 0 <= m < k && steps[#[trigger] order[m]].id == steps[i].id
            ||| exists|d: int|
                0 <= d < steps[i].deps.len() && {
                    let dep = #[trigger] steps[i].deps[d];
                    &&& exists|j: int| 0 <= j < steps.len() && #[trigger] steps[j].id == dep
                    &&& forall|m: int| 0 <= m < k ==> steps[#[trigger] order[m]].id != dep
                }
        }),
{
    let order = step_order(steps);
    assert(full_order(steps, order));
    let sofar = order.take(k);
    assert(comes_next(steps, sofar, order[k]));
    assert(!can_come(steps, sofar, i));
    if placed(steps, sofar, steps[i].id) {
        let m = choose|m: int| 0 <= m < sofar.len() && steps[#[trigger] sofar[m]].id == steps[i].id;
        assert(order[m] == sofar[m]);
    } else {
        let d = choose|d: int|
            0 <= d < steps[i].deps.len() && !(placed(steps, sofar, #[trigger] steps[i].deps[d])
                || !holds_step(steps, steps[i].deps[d]));
        let dep = steps[i].deps[d];
        assert(!placed(steps, sofar, dep) && holds_step(steps, dep));
        assert forall|m: int| 0 <= m < k implies steps[#[trigger] order[m]].id != dep by {
            assert(sofar[m] == order[m]);
        }
    }
}

proof fn lemma_undispatchable(steps: Seq<StepModel>, from: int)
    requires
        0 <= from <= steps.len(),
    ensures
        undispatchable(steps, from) is None <==> forall|i: int|
            from <= i < steps.len() ==> (#[trigger] steps[i]).max_turns != Some(0u32),
    decreases steps.len() - from,
{
    if from < steps.len() {
        lemma_undispatchable(steps, from + 1);
        if undispatchable(steps, from) is Some && steps[from].max_turns != Some(0u32) {
            let i = choose|i: int|
                from + 1 <= i < steps.len() && (#[trigger] steps[i]).max_turns == Some(0u32);
            assert(steps[i].max_turns == Some(0u32));
        }
    }
}

/// A workstream starts exactly where its steps have an order and every one of them has a
/// turn to run in.
pub proof fn law_what_starts_a_workstream(n: NodeModel)
    ensures
        workstream_stop(n) is None <==> (n.steps is Some ==> orderable(n.steps->0)) && forall|i: int|
            0 <= i < dispatch_order(n).len() ==> (#[trigger] dispatch_order(n)[i]).max_turns
                != Some(0u32),
{
    lemma_undispatchable(dispatch_order(n), 0);
}

} // verus!
