//! What a plan must be before anything is dispatched for it.
//!
//! The node shape rules, the reference rules, and acyclicity, checked at the
//! trust boundary so a typo fails loudly before any provider time is spent. Each
//! rule is one clause of [`node_fault`], [`step_fault`] or [`plan_fault`], in the
//! order a reader is told of them: the first that applies is the refusal.
use vstd::prelude::*;

use crate::controls::{NodeControls, NO_TURN};
use crate::crossdag;
use crate::cycle;
use crate::cycle::{acyclic, find_cycle, ids_along, is_cycle, is_first_cycle, positions};
use crate::error::Error;
use crate::names::NameMap;
use crate::plan;
use crate::plan::{
    node_models,
    step_models,
    Node,
    NodeKind,
    NodeModel,
    Plan,
    PlanModel,
    Step,
    StepModel,
    PLAN_SCHEMA_VERSION,
    TITLE_IS_REQUIRED,
};
use crate::text;
use crate::text::{blank, dec, join, text_of, texts};

verus! {

/// The separator reserved for addressing a step within its node.
pub const STEP_SEPARATOR: char = '/';

/// The persona that drafts a change request's body.
pub const PR_AUTHOR_PERSONA: &'static str = "pr-author";

/// What a plan naming the reserved drafting persona is told.
pub const RESERVED_PERSONA: &'static str =
    "`pr-author` is the persona this crate dispatches a      change request's drafting under, so a node's own worker cannot run as it";

/// The longest subject a publication commits under, in bytes.
pub open spec fn subject_limit() -> nat {
    120
}

/// The bound `onevcs::provenance::SUBJECT_LIMIT` declares: 120.
#[verifier::external_body]
fn subject_limit_of_publication() -> (r: usize)
    ensures
        r == subject_limit(),
{
    onevcs::provenance::SUBJECT_LIMIT
}

/// A fault, named against the node it is in.
pub open spec fn of_node(id: Seq<char>, what: Seq<char>) -> Seq<char> {
    "node '"@ + id + "': "@ + what
}

fn node_says(id: &String, what: &str) -> (r: Error)
    ensures
        r == Error::Invalid(r->Invalid_0),
        r->Invalid_0@ == of_node(id@, what@),
{
    let mut out: String = String::from_str("node '");
    out.append(id.as_str());
    out.append("': ");
    out.append(what);
    Error::Invalid(out)
}

/// Absent, or present and blank.
pub open spec fn says_nothing(prose: Option<Seq<char>>) -> bool {
    match prose {
        Some(prose) => blank(prose),
        None => true,
    }
}

fn lacks_prose(prose: &Option<String>) -> (r: bool)
    ensures
        r == says_nothing(text_of(*prose)),
{
    match prose {
        Some(prose) => text::is_blank(prose.as_str()),
        None => true,
    }
}

/// The length of a text in bytes, as UTF-8 encodes it.
pub open spec fn byte_len(s: Seq<char>) -> nat {
    vstd::utf8::encode_utf8(s).len()
}

/// What is wrong with an explicit change-request title.
pub open spec fn title_fault(title: Seq<char>) -> Option<Seq<char>> {
    let subject = text::trim(title);
    if subject.len() == 0 {
        Some("the title is blank, and a publication needs a subject"@)
    } else if byte_len(subject) > subject_limit() {
        Some(
            "the title is "@ + dec(byte_len(subject)) + " characters, over the "@ + dec(
                subject_limit(),
            ) + "-character limit onevcs holds a publication subject to"@,
        )
    } else {
        None
    }
}

/// Check one explicit change-request title against the rule its publication is
/// held to: the trimmed title is not blank, and is no longer than
/// `onevcs::provenance::SUBJECT_LIMIT` in bytes.
pub fn validate_title(title: &str) -> (r: Result<(), String>)
    ensures
        match r {
            Ok(()) => title_fault(title@) is None,
            Err(why) => title_fault(title@) == Some(why@),
        },
{
    let subject = text::trimmed(title);
    if subject.as_str().is_empty() {
        return Err("the title is blank, and a publication needs a subject".to_owned());
    }
    let limit: usize = subject_limit_of_publication();
    let length: usize = subject.as_str().as_bytes().len();
    if length > limit {
        let mut out: String = String::from_str("the title is ");
        text::push_dec(&mut out, length as u64);
        out.append(" characters, over the ");
        text::push_dec(&mut out, limit as u64);
        out.append("-character limit onevcs holds a publication subject to");
        return Err(out);
    }
    Ok(())
}

/// The first release target keyed by something the node does not depend on.
pub open spec fn stray_consumes(n: NodeModel, from: int) -> Option<Seq<char>>
    decreases n.consumes.len() - from,
{
    if from < 0 || from >= n.consumes.len() {
        None
    } else if !n.deps.contains(n.consumes[from].0) {
        Some(n.consumes[from].0)
    } else {
        stray_consumes(n, from + 1)
    }
}

fn has_text(list: &Vec<String>, wanted: &str) -> (r: bool)
    ensures
        r == texts(list@).contains(wanted@),
{
    let mut i: usize = 0;
    while i < list.len()
        invariant
            i <= list@.len(),
            forall|j: int| 0 <= j < i ==> #[trigger] texts(list@)[j] != wanted@,
        decreases list@.len() - i,
    {
        if text::same(list[i].as_str(), wanted) {
            assert(texts(list@)[i as int] == wanted@);
            return true;
        }
        i += 1;
    }
    false
}

fn first_stray(node: &Node) -> (r: Option<String>)
    ensures
        text_of(r) == stray_consumes(node@, 0),
{
    let mut i: usize = 0;
    while i < node.consumes.len()
        invariant
            i <= node.consumes@.len(),
            stray_consumes(node@, 0) == stray_consumes(node@, i as int),
        decreases node.consumes@.len() - i,
    {
        assert(node@.consumes[i as int].0 == node.consumes@[i as int].0@);
        if !has_text(&node.deps, node.consumes[i].0.as_str()) {
            return Some(node.consumes[i].0.clone());
        }
        i += 1;
    }
    None
}

/// What is wrong with one step, against the steps written before it.
pub open spec fn step_fault(steps: Seq<StepModel>, i: int) -> Option<Seq<char>> {
    let step = steps[i];
    if blank(step.id) {
        Some("every step needs a non-empty id"@)
    } else if exists|j: int| 0 <= j < i && #[trigger] steps[j].id == step.id {
        Some("duplicate step id '"@ + step.id + "'"@)
    } else if step.kind == NodeKind::Human && step.id.contains(STEP_SEPARATOR) {
        Some("human step '"@ + step.id + "' cannot contain '/', which addresses it"@)
    } else if step.kind == NodeKind::Human && (step.persona is Some || step.max_turns is Some
        || step.expects_no_diff) {
        Some(
            "human step '"@ + step.id
                + "' has no dispatch, so no persona, turn budget, or expects_no_diff"@,
        )
    } else if step.kind != NodeKind::Human && step.expects_no_diff && (step.persona is Some
        || step.max_turns is Some) {
        Some("step '"@ + step.id + "': expects_no_diff settles without a dispatch"@)
    } else if step.kind != NodeKind::Human && !step.expects_no_diff && step.persona is None {
        Some("agent step '"@ + step.id + "' needs a persona"@)
    } else if step.kind != NodeKind::Human && !step.expects_no_diff && step.persona == Some(
        PR_AUTHOR_PERSONA@,
    ) {
        Some("step '"@ + step.id + "': "@ + RESERVED_PERSONA@)
    } else if step.kind != NodeKind::Human && !step.expects_no_diff && step.max_turns == Some(
        0u32,
    ) {
        Some("step '"@ + step.id + "': "@ + NO_TURN@)
    } else if says_nothing(step.task) {
        Some("step '"@ + step.id + "' needs task prose"@)
    } else {
        None
    }
}

/// The first step whose own shape is wrong, from a position on.
pub open spec fn steps_fault(steps: Seq<StepModel>, from: int) -> Option<Seq<char>>
    decreases steps.len() - from,
{
    if from < 0 || from >= steps.len() {
        None
    } else {
        match step_fault(steps, from) {
            Some(why) => Some(why),
            None => steps_fault(steps, from + 1),
        }
    }
}

/// What is wrong with one dependency of a step.
pub open spec fn step_dep_fault(steps: Seq<StepModel>, i: int, d: int) -> Option<Seq<char>> {
    let step = steps[i];
    let dep = step.deps[d];
    if dep == step.id {
        Some("step '"@ + step.id + "' depends on itself"@)
    } else if !(exists|j: int| 0 <= j < steps.len() && #[trigger] steps[j].id == dep) {
        Some(
            "step '"@ + step.id + "' depends on '"@ + dep
                + "', which is not a step of this node"@,
        )
    } else {
        None
    }
}

/// The first faulty dependency of the steps, from a step and a dependency on.
pub open spec fn step_deps_fault(steps: Seq<StepModel>, i: int, d: int) -> Option<Seq<char>>
    decreases steps.len() - i, (if 0 <= i < steps.len() { steps[i].deps.len() - d } else { 0 }),
{
    if i < 0 || i >= steps.len() || d < 0 {
        None
    } else if d >= steps[i].deps.len() {
        step_deps_fault(steps, i + 1, 0)
    } else {
        match step_dep_fault(steps, i, d) {
            Some(why) => Some(why),
            None => step_deps_fault(steps, i, d + 1),
        }
    }
}

/// What is wrong with a workstream's steps.
pub open spec fn workstream_fault(steps: Seq<StepModel>) -> Option<Seq<char>> {
    if steps.len() == 0 {
        Some("a steps list cannot be empty"@)
    } else {
        match steps_fault(steps, 0) {
            Some(why) => Some(why),
            None => step_deps_fault(steps, 0, 0),
        }
    }
}

/// What is wrong with one node's shape.
pub open spec fn node_fault(n: NodeModel) -> Option<Seq<char>> {
    if n.persona == Some(PR_AUTHOR_PERSONA@) {
        Some(RESERVED_PERSONA@)
    } else if n.repo is Some && n.title is Some && title_fault(n.title->0) is Some {
        title_fault(n.title->0)
    } else if n.amendment is Some && blank(n.amendment->0) {
        Some(
            "`amendment` is present and says nothing — give it the ruling it carries, or leave it out"@,
        )
    } else if stray_consumes(n, 0) is Some {
        Some(
            "`consumes` names '"@ + stray_consumes(n, 0)->0
                + "', which is not one of this node's deps"@,
        )
    } else if n.kind == NodeKind::Human {
        human_fault(n)
    } else if n.expects_no_diff {
        no_diff_fault(n)
    } else if n.max_turns == Some(0u32) {
        Some(NO_TURN@)
    } else if n.repo is None && n.steps is Some {
        Some("steps run on one branch, so they need a repo"@)
    } else if n.repo is None {
        direct_fault(n)
    } else if n.steps is Some {
        if n.persona is Some || n.task is Some || n.max_turns is Some {
            Some("a node with steps takes its persona, task, and turn budget from them"@)
        } else {
            workstream_fault(n.steps->0)
        }
    } else {
        lifecycle_fault(n)
    }
}

/// What is wrong with a human action.
pub open spec fn human_fault(n: NodeModel) -> Option<Seq<char>> {
    if n.id.contains(STEP_SEPARATOR) {
        Some("a human id cannot contain '/', which addresses a step"@)
    } else if says_nothing(n.task) {
        Some("a human node needs task prose"@)
    } else if n.persona is Some || n.max_turns is Some {
        Some("a human node has no dispatch, so no persona or turn budget"@)
    } else if n.repo is Some || n.steps is Some || n.expects_no_diff {
        Some("a human node has no execution fields"@)
    } else if n.context is Some {
        Some("a planner note is addressed to a dispatch, and a human node has none"@)
    } else {
        None
    }
}

/// What is wrong with a node that settles without a dispatch.
pub open spec fn no_diff_fault(n: NodeModel) -> Option<Seq<char>> {
    if says_nothing(n.task) {
        Some("an expects_no_diff node needs task prose"@)
    } else if n.persona is Some || n.max_turns is Some {
        Some(
            "expects_no_diff settles without a dispatch, so it takes no persona or turn budget"@,
        )
    } else if n.steps is Some {
        Some("expects_no_diff and steps cannot both be set"@)
    } else {
        None
    }
}

/// What is wrong with an agent node that names no repository.
pub open spec fn direct_fault(n: NodeModel) -> Option<Seq<char>> {
    if n.persona is None {
        Some("a direct agent node needs a persona"@)
    } else if says_nothing(n.task) {
        Some("a direct agent node needs task prose"@)
    } else {
        None
    }
}

/// What is wrong with an agent node that names a repository and no steps.
pub open spec fn lifecycle_fault(n: NodeModel) -> Option<Seq<char>> {
    if n.persona is None {
        Some("a lifecycle node needs a persona or steps"@)
    } else if says_nothing(n.task) {
        Some("a lifecycle node needs task prose"@)
    } else {
        None
    }
}

/// The verdict a fault amounts to, named against its node.
pub open spec fn refuses(r: Result<(), Error>, id: Seq<char>, fault: Option<Seq<char>>) -> bool {
    match r {
        Ok(()) => fault is None,
        Err(Error::Invalid(why)) => fault is Some && why@ == of_node(id, fault->0),
        Err(_) => false,
    }
}

fn validate_human(node: &Node) -> (r: Result<(), Error>)
    ensures
        refuses(r, node.id@, human_fault(node@)),
{
    if text::holds(node.id.as_str(), STEP_SEPARATOR) {
        return Err(node_says(&node.id, "a human id cannot contain '/', which addresses a step"));
    }
    if lacks_prose(&node.task) {
        return Err(node_says(&node.id, "a human node needs task prose"));
    }
    if node.persona.is_some() || node.max_turns.is_some() {
        return Err(
            node_says(&node.id, "a human node has no dispatch, so no persona or turn budget"),
        );
    }
    if node.repo.is_some() || node.steps.is_some() || node.expects_no_diff {
        return Err(node_says(&node.id, "a human node has no execution fields"));
    }
    if node.context.is_some() {
        return Err(
            node_says(
                &node.id,
                "a planner note is addressed to a dispatch, and a human node has none",
            ),
        );
    }
    Ok(())
}

fn validate_no_diff(node: &Node) -> (r: Result<(), Error>)
    ensures
        refuses(r, node.id@, no_diff_fault(node@)),
{
    if lacks_prose(&node.task) {
        return Err(node_says(&node.id, "an expects_no_diff node needs task prose"));
    }
    if node.persona.is_some() || node.max_turns.is_some() {
        return Err(
            node_says(
                &node.id,
                "expects_no_diff settles without a dispatch, so it takes no persona or turn budget",
            ),
        );
    }
    if node.steps.is_some() {
        return Err(node_says(&node.id, "expects_no_diff and steps cannot both be set"));
    }
    Ok(())
}

/// Check one node's shape.
pub fn validate_node(node: &Node) -> (r: Result<(), Error>)
    ensures
        refuses(r, node.id@, node_fault(node@)),
{
    if text::is_text(&node.persona, PR_AUTHOR_PERSONA) {
        return Err(node_says(&node.id, RESERVED_PERSONA));
    }
    if node.repo.is_some() {
        if let Some(title) = &node.title {
            if let Err(why) = validate_title(title.as_str()) {
                return Err(node_says(&node.id, why.as_str()));
            }
        }
    }
    if let Some(amendment) = &node.amendment {
        if text::is_blank(amendment.as_str()) {
            return Err(
                node_says(
                    &node.id,
                    "`amendment` is present and says nothing — give it the ruling it carries, or leave it out",
                ),
            );
        }
    }
    if let Some(stray) = first_stray(node) {
        let mut what: String = String::from_str("`consumes` names '");
        what.append(stray.as_str());
        what.append("', which is not one of this node's deps");
        return Err(node_says(&node.id, what.as_str()));
    }
    if node.kind == NodeKind::Human {
        return validate_human(node);
    }
    if node.expects_no_diff {
        return validate_no_diff(node);
    }
    match NodeControls::of_node(node) {
        Ok(controls) => {
            if let Err(why) = controls.overrides() {
                return Err(node_says(&node.id, why.as_str()));
            }
        },
        Err(why) => {
            return Err(node_says(&node.id, why.as_str()));
        },
    }
    match (&node.repo, &node.steps) {
        (None, Some(_)) => Err(
            node_says(&node.id, "steps run on one branch, so they need a repo"),
        ),
        (None, None) => {
            if node.persona.is_none() {
                return Err(node_says(&node.id, "a direct agent node needs a persona"));
            }
            if lacks_prose(&node.task) {
                return Err(node_says(&node.id, "a direct agent node needs task prose"));
            }
            Ok(())
        },
        (Some(_), Some(steps)) => {
            if node.persona.is_some() || node.task.is_some() || node.max_turns.is_some() {
                return Err(
                    node_says(
                        &node.id,
                        "a node with steps takes its persona, task, and turn budget from them",
                    ),
                );
            }
            validate_steps(node, steps)
        },
        (Some(_), None) => {
            if node.persona.is_none() {
                return Err(node_says(&node.id, "a lifecycle node needs a persona or steps"));
            }
            if lacks_prose(&node.task) {
                return Err(node_says(&node.id, "a lifecycle node needs task prose"));
            }
            Ok(())
        },
    }
}

fn step_says(node: &Node, lead: &str, id: &String, tail: &str) -> (r: Error)
    ensures
        r == Error::Invalid(r->Invalid_0),
        r->Invalid_0@ == of_node(node.id@, lead@ + id@ + tail@),
{
    let mut what: String = String::from_str(lead);
    what.append(id.as_str());
    what.append(tail);
    node_says(&node.id, what.as_str())
}

/// Check one step against the steps written before it.
fn validate_step(node: &Node, steps: &Vec<Step>, i: usize, seen: bool) -> (r: Result<(), Error>)
    requires
        i < steps@.len(),
        seen == (exists|j: int|
            0 <= j < i && #[trigger] step_models(steps@)[j].id == step_models(steps@)[i as int].id),
    ensures
        refuses(r, node.id@, step_fault(step_models(steps@), i as int)),
{
    let step = &steps[i];
    assert(step_models(steps@)[i as int] == step@);
    if text::is_blank(step.id.as_str()) {
        return Err(node_says(&node.id, "every step needs a non-empty id"));
    }
    if seen {
        return Err(step_says(node, "duplicate step id '", &step.id, "'"));
    }
    if step.kind == NodeKind::Human {
        if text::holds(step.id.as_str(), STEP_SEPARATOR) {
            return Err(
                step_says(
                    node,
                    "human step '",
                    &step.id,
                    "' cannot contain '/', which addresses it",
                ),
            );
        }
        if step.persona.is_some() || step.max_turns.is_some() || step.expects_no_diff {
            return Err(
                step_says(
                    node,
                    "human step '",
                    &step.id,
                    "' has no dispatch, so no persona, turn budget, or expects_no_diff",
                ),
            );
        }
    } else if step.expects_no_diff {
        if step.persona.is_some() || step.max_turns.is_some() {
            return Err(
                step_says(
                    node,
                    "step '",
                    &step.id,
                    "': expects_no_diff settles without a dispatch",
                ),
            );
        }
    } else {
        if step.persona.is_none() {
            return Err(step_says(node, "agent step '", &step.id, "' needs a persona"));
        }
        if text::is_text(&step.persona, PR_AUTHOR_PERSONA) {
            let mut what: String = String::from_str("step '");
            what.append(step.id.as_str());
            what.append("': ");
            what.append(RESERVED_PERSONA);
            return Err(node_says(&node.id, what.as_str()));
        }
        let refusal: Option<String> = match NodeControls::of_step(step) {
            Ok(controls) => match controls.overrides() {
                Ok(_) => None,
                Err(why) => Some(why),
            },
            Err(why) => Some(why),
        };
        if let Some(why) = refusal {
            let mut what: String = String::from_str("step '");
            what.append(step.id.as_str());
            what.append("': ");
            what.append(why.as_str());
            return Err(node_says(&node.id, what.as_str()));
        }
    }
    if lacks_prose(&step.task) {
        return Err(step_says(node, "step '", &step.id, "' needs task prose"));
    }
    Ok(())
}

/// Check the steps of one workstream.
pub fn validate_steps(node: &Node, steps: &Vec<Step>) -> (r: Result<(), Error>)
    ensures
        refuses(r, node.id@, workstream_fault(step_models(steps@))),
{
    let ghost model = step_models(steps@);
    if steps.len() == 0 {
        return Err(node_says(&node.id, "a steps list cannot be empty"));
    }
    let mut seen: NameMap<usize> = NameMap::new();
    let mut i: usize = 0;
    while i < steps.len()
        invariant
            model == step_models(steps@),
            i <= model.len(),
            seen.wf(),
            forall|q: Seq<char>| #[trigger]
                seen@.contains_key(q) <==> exists|j: int| 0 <= j < i && #[trigger] model[j].id == q,
            steps_fault(model, 0) == steps_fault(model, i as int),
        decreases steps@.len() - i,
    {
        let ghost was = seen@;
        assert(model[i as int] == steps@[i as int]@);
        let known: bool = seen.contains(steps[i].id.as_str());
        if let Err(why) = validate_step(node, steps, i, known) {
            return Err(why);
        }
        seen.insert(steps[i].id.clone(), i);
        proof {
            assert forall|q: Seq<char>| #[trigger] seen@.contains_key(q) <==> exists|j: int|
                0 <= j < i + 1 && #[trigger] model[j].id == q by {
                if seen@.contains_key(q) {
                    if was.contains_key(q) {
                        let j = choose|j: int| 0 <= j < i && #[trigger] model[j].id == q;
                        assert(model[j].id == q);
                    } else {
                        assert(model[i as int].id == q);
                    }
                }
                if exists|j: int| 0 <= j < i + 1 && #[trigger] model[j].id == q {
                    let j = choose|j: int| 0 <= j < i + 1 && #[trigger] model[j].id == q;
                    if j < i {
                        assert(was.contains_key(q));
                    }
                }
            }
        }
        i += 1;
    }
    i = 0;
    while i < steps.len()
        invariant
            model == step_models(steps@),
            i <= model.len(),
            model.len() > 0,
            forall|q: Seq<char>| #[trigger]
                seen@.contains_key(q) <==> exists|j: int|
                    0 <= j < model.len() && #[trigger] model[j].id == q,
            steps_fault(model, 0) is None,
            step_deps_fault(model, 0, 0) == step_deps_fault(model, i as int, 0),
        decreases steps@.len() - i,
    {
        let step = &steps[i];
        assert(model[i as int] == step@);
        let mut d: usize = 0;
        while d < step.deps.len()
            invariant
                i < model.len(),
                model[i as int] == step@,
                d <= step.deps@.len(),
                forall|q: Seq<char>| #[trigger]
                    seen@.contains_key(q) <==> exists|j: int|
                        0 <= j < model.len() && #[trigger] model[j].id == q,
                model.len() > 0,
                model == step_models(steps@),
                steps_fault(model, 0) is None,
                step_deps_fault(model, 0, 0) == step_deps_fault(model, i as int, d as int),
            decreases step.deps@.len() - d,
        {
            let dep = &step.deps[d];
            assert(model[i as int].deps[d as int] == dep@);
            if text::same(dep.as_str(), step.id.as_str()) {
                return Err(step_says(node, "step '", &step.id, "' depends on itself"));
            }
            if !seen.contains(dep.as_str()) {
                let mut what: String = String::from_str("step '");
                what.append(step.id.as_str());
                what.append("' depends on '");
                what.append(dep.as_str());
                what.append("', which is not a step of this node");
                return Err(node_says(&node.id, what.as_str()));
            }
            d += 1;
        }
        i += 1;
    }
    Ok(())
}

/// A plan schema version this build reads.
pub open spec fn reads(version: u32) -> bool {
    1 <= version <= PLAN_SCHEMA_VERSION
}

/// What is wrong with one node of a plan, against the nodes written before it.
pub open spec fn task_fault(tasks: Seq<NodeModel>, i: int) -> Option<Seq<char>> {
    if blank(tasks[i].id) {
        Some("every node needs a non-empty id"@)
    } else if exists|j: int| 0 <= j < i && #[trigger] tasks[j].id == tasks[i].id {
        Some("duplicate node id '"@ + tasks[i].id + "'"@)
    } else {
        match node_fault(tasks[i]) {
            Some(what) => Some(of_node(tasks[i].id, what)),
            None => None,
        }
    }
}

/// The first faulty node of a plan, from a position on.
pub open spec fn tasks_fault(tasks: Seq<NodeModel>, from: int) -> Option<Seq<char>>
    decreases tasks.len() - from,
{
    if from < 0 || from >= tasks.len() {
        None
    } else {
        match task_fault(tasks, from) {
            Some(why) => Some(why),
            None => tasks_fault(tasks, from + 1),
        }
    }
}

/// What is wrong with one dependency of a node.
pub open spec fn dep_fault(tasks: Seq<NodeModel>, i: int, d: int) -> Option<Seq<char>> {
    let id = tasks[i].id;
    let dep = tasks[i].deps[d];
    if dep == id {
        Some("node '"@ + id + "' depends on itself"@)
    } else if crossdag::reference(dep) {
        None
    } else if crossdag::malformed(dep) {
        Some(
            "node '"@ + id + "' depends on '"@ + dep
                + "', which is a malformed cross-DAG reference; expected '"@ + crossdag::SYNTAX@
                + "'"@,
        )
    } else if !(exists|j: int| 0 <= j < tasks.len() && #[trigger] tasks[j].id == dep) {
        Some("node '"@ + id + "' depends on '"@ + dep + "', which is not in the plan"@)
    } else {
        None
    }
}

/// The first faulty dependency of a plan, from a node and a dependency on.
pub open spec fn deps_fault(tasks: Seq<NodeModel>, i: int, d: int) -> Option<Seq<char>>
    decreases tasks.len() - i, (if 0 <= i < tasks.len() { tasks[i].deps.len() - d } else { 0 }),
{
    if i < 0 || i >= tasks.len() || d < 0 {
        None
    } else if d >= tasks[i].deps.len() {
        deps_fault(tasks, i + 1, 0)
    } else {
        match dep_fault(tasks, i, d) {
            Some(why) => Some(why),
            None => deps_fault(tasks, i, d + 1),
        }
    }
}

/// What is wrong with a plan, short of a dependency cycle.
pub open spec fn plan_fault(p: PlanModel) -> Option<Seq<char>> {
    if !reads(p.schema_version) {
        Some(
            "plan schema_version "@ + dec(p.schema_version as nat)
                + " is not one this build reads (1, 2, 3)"@,
        )
    } else if p.concurrency == 0 {
        Some("concurrency must be at least 1"@)
    } else if p.goal is Some && blank(p.goal->0) {
        Some("a goal needs non-empty text"@)
    } else {
        match tasks_fault(p.tasks, 0) {
            Some(why) => Some(why),
            None => deps_fault(p.tasks, 0, 0),
        }
    }
}

/// The verdict on a plan an edit produced: its first fault, or the first cycle its
/// dependencies hold, rendered as the path around it.
pub open spec fn edited_verdict(p: PlanModel, r: Result<(), Error>) -> bool {
    match r {
        Ok(()) => plan_fault(p) is None && acyclic(p.tasks),
        Err(Error::Invalid(why)) => match plan_fault(p) {
            Some(fault) => why@ == fault,
            None => exists|walk: Seq<int>| #[trigger]
                is_first_cycle(p.tasks, walk) && is_cycle(p.tasks, walk) && why@
                    == "dependency cycle: "@ + join(ids_along(p.tasks, walk), " -> "@),
        },
        Err(_) => false,
    }
}

/// What the version a plan declares makes wrong with one of its nodes.
pub open spec fn version_fault(p: PlanModel, i: int) -> Option<Seq<char>> {
    let n = p.tasks[i];
    if n.body is Some && p.schema_version < PLAN_SCHEMA_VERSION {
        Some(of_node(n.id, plan::body_newer(p.schema_version as nat)))
    } else if p.schema_version >= PLAN_SCHEMA_VERSION && n.repo is Some && n.title is None {
        Some(of_node(n.id, TITLE_IS_REQUIRED@))
    } else {
        None
    }
}

/// The first node the declared version refuses, from a position on.
pub open spec fn versions_fault(p: PlanModel, from: int) -> Option<Seq<char>>
    decreases p.tasks.len() - from,
{
    if from < 0 || from >= p.tasks.len() {
        None
    } else {
        match version_fault(p, from) {
            Some(why) => Some(why),
            None => versions_fault(p, from + 1),
        }
    }
}

/// The verdict on a plan a launch names.
pub open spec fn plan_verdict(p: PlanModel, r: Result<(), Error>) -> bool {
    if p.tasks.len() == 0 {
        r matches Err(Error::Invalid(why)) && why@ == "a plan needs at least one node"@
    } else if plan_fault(p) is Some || !acyclic(p.tasks) {
        r is Err && edited_verdict(p, r)
    } else {
        match r {
            Ok(()) => versions_fault(p, 0) is None,
            Err(Error::Invalid(why)) => versions_fault(p, 0) == Some(why@),
            Err(_) => false,
        }
    }
}

fn cycle_says(tasks: &Vec<Node>, walk: &Vec<usize>) -> (r: Error)
    requires
        is_cycle(node_models(tasks@), positions(walk@)),
    ensures
        r == Error::Invalid(r->Invalid_0),
        r->Invalid_0@ == "dependency cycle: "@ + join(
            ids_along(node_models(tasks@), positions(walk@)),
            " -> "@,
        ),
{
    let ghost model = node_models(tasks@);
    let ghost along = positions(walk@);
    let mut ids: Vec<String> = Vec::new();
    let mut i: usize = 0;
    while i < walk.len()
        invariant
            i <= walk@.len(),
            model == node_models(tasks@),
            along == positions(walk@),
            is_cycle(model, along),
            texts(ids@) == ids_along(model, along).take(i as int),
        decreases walk@.len() - i,
    {
        proof {
            if i < along.len() - 1 {
                assert(edge_at(model, along, i as int));
            } else {
                assert(edge_at(model, along, i - 1));
            }
            assert(along[i as int] == walk@[i as int]);
        }
        let ghost was = texts(ids@);
        ids.push(tasks[walk[i]].id.clone());
        assert(texts(ids@) =~= was.push(model[walk@[i as int] as int].id));
        i += 1;
        assert(texts(ids@) =~= ids_along(model, along).take(i as int));
    }
    assert(texts(ids@) =~= ids_along(model, along));
    let path = text::joined(&ids, " -> ");
    let mut out: String = String::from_str("dependency cycle: ");
    out.append(path.as_str());
    Error::Invalid(out)
}

spec fn edge_at(tasks: Seq<NodeModel>, walk: Seq<int>, k: int) -> bool {
    cycle::edge(tasks, walk[k], walk[k + 1])
}

/// Check the dependencies of a plan whose ids are indexed.
fn validate_deps(tasks: &Vec<Node>, index: &NameMap<usize>) -> (r: Result<(), Error>)
    requires
        index.wf(),
        index.order() == node_models(tasks@).map_values(|n: NodeModel| n.id),
    ensures
        match r {
            Ok(()) => deps_fault(node_models(tasks@), 0, 0) is None,
            Err(Error::Invalid(why)) => deps_fault(node_models(tasks@), 0, 0) == Some(why@),
            Err(_) => false,
        },
{
    let ghost model = node_models(tasks@);
    proof {
        index.lemma_views();
        assert forall|q: Seq<char>| #[trigger] index@.contains_key(q) <==> exists|j: int|
            0 <= j < model.len() && #[trigger] model[j].id == q by {
            if index@.contains_key(q) {
                let j = choose|j: int| 0 <= j < index.order().len() && index.order()[j] == q;
                assert(model[j].id == q);
            }
            if exists|j: int| 0 <= j < model.len() && #[trigger] model[j].id == q {
                let j = choose|j: int| 0 <= j < model.len() && #[trigger] model[j].id == q;
                assert(index.order()[j] == q);
            }
        }
    }
    let mut i: usize = 0;
    while i < tasks.len()
        invariant
            model == node_models(tasks@),
            i <= model.len(),
            forall|q: Seq<char>| #[trigger]
                index@.contains_key(q) <==> exists|j: int|
                    0 <= j < model.len() && #[trigger] model[j].id == q,
            deps_fault(model, 0, 0) == deps_fault(model, i as int, 0),
        decreases tasks@.len() - i,
    {
        let node = &tasks[i];
        assert(model[i as int] == node@);
        let mut d: usize = 0;
        while d < node.deps.len()
            invariant
                i < model.len(),
                model == node_models(tasks@),
                model[i as int] == node@,
                d <= node.deps@.len(),
                forall|q: Seq<char>| #[trigger]
                    index@.contains_key(q) <==> exists|j: int|
                        0 <= j < model.len() && #[trigger] model[j].id == q,
                deps_fault(model, 0, 0) == deps_fault(model, i as int, d as int),
            decreases node.deps@.len() - d,
        {
            let dep = &node.deps[d];
            assert(model[i as int].deps[d as int] == dep@);
            if text::same(dep.as_str(), node.id.as_str()) {
                let mut out: String = String::from_str("node '");
                out.append(node.id.as_str());
                out.append("' depends on itself");
                return Err(Error::Invalid(out));
            }
            if !crossdag::is_reference(dep.as_str()) {
                if crossdag::is_malformed(dep.as_str()) {
                    let mut out: String = String::from_str("node '");
                    out.append(node.id.as_str());
                    out.append("' depends on '");
                    out.append(dep.as_str());
                    out.append("', which is a malformed cross-DAG reference; expected '");
                    out.append(crossdag::SYNTAX);
                    out.append("'");
                    return Err(Error::Invalid(out));
                }
                if !index.contains(dep.as_str()) {
                    let mut out: String = String::from_str("node '");
                    out.append(node.id.as_str());
                    out.append("' depends on '");
                    out.append(dep.as_str());
                    out.append("', which is not in the plan");
                    return Err(Error::Invalid(out));
                }
            }
            d += 1;
        }
        i += 1;
    }
    Ok(())
}

/// Check a graph an edit produced.
///
/// Every rule [`validate`] applies except that a plan needs a node: an edit may
/// legally empty the graph, which is a settled run rather than a malformed plan.
pub fn validate_edited(plan: &Plan) -> (r: Result<(), Error>)
    ensures
        edited_verdict(plan@, r),
{
    let ghost model = node_models(plan.tasks@);
    if plan.schema_version < 1 || plan.schema_version > PLAN_SCHEMA_VERSION {
        let mut out: String = String::from_str("plan schema_version ");
        text::push_dec(&mut out, plan.schema_version as u64);
        out.append(" is not one this build reads (1, 2, 3)");
        return Err(Error::Invalid(out));
    }
    if plan.concurrency == 0 {
        return Err(Error::Invalid("concurrency must be at least 1".to_owned()));
    }
    if let Some(goal) = &plan.goal {
        if text::is_blank(goal.text.as_str()) {
            return Err(Error::Invalid("a goal needs non-empty text".to_owned()));
        }
    }
    let mut seen: NameMap<usize> = NameMap::new();
    let mut i: usize = 0;
    while i < plan.tasks.len()
        invariant
            model == node_models(plan.tasks@),
            i <= model.len(),
            seen.wf(),
            seen.order() == model.map_values(|n: NodeModel| n.id).take(i as int),
            tasks_fault(model, 0) == tasks_fault(model, i as int),
            reads(plan.schema_version),
            plan.concurrency != 0,
            !(plan@.goal is Some && blank(plan@.goal->0)),
        decreases plan.tasks@.len() - i,
    {
        let node = &plan.tasks[i];
        assert(model[i as int] == node@);
        let ghost ids = model.map_values(|n: NodeModel| n.id);
        proof {
            seen.lemma_views();
            assert(seen@.contains_key(node.id@) <==> exists|j: int|
                0 <= j < i && #[trigger] model[j].id == model[i as int].id) by {
                if seen@.contains_key(node.id@) {
                    let j = choose|j: int|
                        0 <= j < seen.order().len() && seen.order()[j] == node.id@;
                    assert(model[j].id == model[i as int].id);
                }
                if exists|j: int| 0 <= j < i && #[trigger] model[j].id == model[i as int].id {
                    let j = choose|j: int| 0 <= j < i && #[trigger] model[j].id == model[i as int].id;
                    assert(seen.order()[j] == node.id@);
                }
            }
        }
        if text::is_blank(node.id.as_str()) {
            return Err(Error::Invalid("every node needs a non-empty id".to_owned()));
        }
        if seen.contains(node.id.as_str()) {
            let mut out: String = String::from_str("duplicate node id '");
            out.append(node.id.as_str());
            out.append("'");
            return Err(Error::Invalid(out));
        }
        if let Err(why) = validate_node(node) {
            return Err(why);
        }
        seen.insert(node.id.clone(), i);
        i += 1;
        assert(seen.order() =~= ids.take(i as int));
    }
    assert(model.map_values(|n: NodeModel| n.id).take(model.len() as int) =~= model.map_values(
        |n: NodeModel| n.id,
    ));
    if let Err(why) = validate_deps(&plan.tasks, &seen) {
        return Err(why);
    }
    if let Some(walk) = find_cycle(&plan.tasks, &seen) {
        return Err(cycle_says(&plan.tasks, &walk));
    }
    Ok(())
}

/// The two rules a plan's own declared version decides.
fn validate_declared_version(plan: &Plan) -> (r: Result<(), Error>)
    ensures
        match r {
            Ok(()) => versions_fault(plan@, 0) is None,
            Err(Error::Invalid(why)) => versions_fault(plan@, 0) == Some(why@),
            Err(_) => false,
        },
{
    let mut i: usize = 0;
    while i < plan.tasks.len()
        invariant
            i <= plan.tasks@.len(),
            versions_fault(plan@, 0) == versions_fault(plan@, i as int),
        decreases plan.tasks@.len() - i,
    {
        let node = &plan.tasks[i];
        assert(plan@.tasks[i as int] == node@);
        if node.body.is_some() && plan.schema_version < PLAN_SCHEMA_VERSION {
            let what = plan::body_is_newer(plan.schema_version);
            return Err(node_says(&node.id, what.as_str()));
        }
        if plan.schema_version >= PLAN_SCHEMA_VERSION && node.repo.is_some()
            && node.title.is_none() {
            return Err(node_says(&node.id, TITLE_IS_REQUIRED));
        }
        i += 1;
    }
    Ok(())
}

/// Check that a plan is one this engine may execute.
pub fn validate(plan: &Plan) -> (r: Result<(), Error>)
    ensures
        plan_verdict(plan@, r),
{
    if plan.tasks.len() == 0 {
        return Err(Error::Invalid("a plan needs at least one node".to_owned()));
    }
    if let Err(why) = validate_edited(plan) {
        proof {
            if plan_fault(plan@) is None {
                let walk = choose|walk: Seq<int>| #[trigger] is_cycle(plan@.tasks, walk);
                assert(is_cycle(plan@.tasks, walk));
            }
        }
        return Err(why);
    }
    validate_declared_version(plan)
}

proof fn lemma_no_task_fault(tasks: Seq<NodeModel>, from: int, i: int)
    requires
        0 <= from <= i < tasks.len(),
        tasks_fault(tasks, from) is None,
    ensures
        task_fault(tasks, i) is None,
    decreases i - from,
{
    if from < i {
        lemma_no_task_fault(tasks, from + 1, i);
    }
}

proof fn lemma_no_dep_fault(tasks: Seq<NodeModel>, i: int, d: int, node: int, dep: int)
    requires
        0 <= i <= node < tasks.len(),
        0 <= d <= tasks[i].deps.len(),
        0 <= dep < tasks[node].deps.len(),
        i == node ==> d <= dep,
        deps_fault(tasks, i, d) is None,
    ensures
        dep_fault(tasks, node, dep) is None,
    decreases node - i, tasks[i].deps.len() - d,
{
    if d >= tasks[i].deps.len() {
        lemma_no_dep_fault(tasks, i + 1, 0, node, dep);
    } else if i < node || d < dep {
        lemma_no_dep_fault(tasks, i, d + 1, node, dep);
    }
}

/// What is accepted is a graph that can run: no two nodes share an id, every
/// dependency is another node of the plan or a reference across plans, and no walk
/// along dependencies comes back to where it started.
pub proof fn law_an_accepted_plan_is_a_graph(p: PlanModel)
    requires
        edited_verdict(p, Ok(())),
    ensures
        p.concurrency > 0,
        cycle::unique_ids(p.tasks),
        acyclic(p.tasks),
        forall|i: int, d: int|
            #![trigger p.tasks[i].deps[d]]
            0 <= i < p.tasks.len() && 0 <= d < p.tasks[i].deps.len() ==> {
                let dep = p.tasks[i].deps[d];
                &&& dep != p.tasks[i].id
                &&& crossdag::reference(dep) || exists|j: int|
                    0 <= j < p.tasks.len() && #[trigger] p.tasks[j].id == dep
            },
        forall|i: int|
            0 <= i < p.tasks.len() ==> node_fault(#[trigger] p.tasks[i]) is None && !blank(
                p.tasks[i].id,
            ),
{
    assert forall|i: int| 0 <= i < p.tasks.len() implies node_fault(#[trigger] p.tasks[i]) is None
        && !blank(p.tasks[i].id) by {
        lemma_no_task_fault(p.tasks, 0, i);
    }
    assert forall|i: int, j: int| 0 <= i < j < p.tasks.len() implies #[trigger] p.tasks[i].id
        != #[trigger] p.tasks[j].id by {
        lemma_no_task_fault(p.tasks, 0, j);
    }
    assert forall|i: int, d: int|
        #![trigger p.tasks[i].deps[d]]
        0 <= i < p.tasks.len() && 0 <= d < p.tasks[i].deps.len() implies {
        let dep = p.tasks[i].deps[d];
        &&& dep != p.tasks[i].id
        &&& crossdag::reference(dep) || exists|j: int|
            0 <= j < p.tasks.len() && #[trigger] p.tasks[j].id == dep
    } by {
        lemma_no_dep_fault(p.tasks, 0, 0, i, d);
    }
}

/// The title a publication is held to: trimmed, it says something, in at most 120 bytes.
pub proof fn law_a_title_fits_a_subject(title: Seq<char>)
    ensures
        title_fault(title) is None <==> 0 < text::trim(title).len() && vstd::utf8::encode_utf8(
            text::trim(title),
        ).len() <= 120,
{
}

proof fn lemma_no_stray(n: NodeModel, from: int)
    requires
        0 <= from <= n.consumes.len(),
    ensures
        stray_consumes(n, from) is None <==> forall|c: int|
            from <= c < n.consumes.len() ==> n.deps.contains((#[trigger] n.consumes[c]).0),
    decreases n.consumes.len() - from,
{
    if from < n.consumes.len() {
        lemma_no_stray(n, from + 1);
        if stray_consumes(n, from) is None {
            assert forall|c: int| from <= c < n.consumes.len() implies n.deps.contains(
                (#[trigger] n.consumes[c]).0,
            ) by {
                if c > from {
                    assert(stray_consumes(n, from + 1) is None);
                }
            }
        } else if n.deps.contains(n.consumes[from].0) {
            let c = choose|c: int|
                from + 1 <= c < n.consumes.len() && !n.deps.contains((#[trigger] n.consumes[c]).0);
            assert(!n.deps.contains(n.consumes[c].0));
        }
    }
}

proof fn lemma_steps_fault(steps: Seq<StepModel>, from: int)
    requires
        0 <= from <= steps.len(),
    ensures
        steps_fault(steps, from) is None <==> forall|i: int|
            from <= i < steps.len() ==> #[trigger] step_fault(steps, i) is None,
    decreases steps.len() - from,
{
    if from < steps.len() {
        lemma_steps_fault(steps, from + 1);
        if steps_fault(steps, from) is None {
            assert forall|i: int| from <= i < steps.len() implies #[trigger] step_fault(
                steps,
                i,
            ) is None by {
                if i > from {
                    assert(steps_fault(steps, from + 1) is None);
                }
            }
        } else if step_fault(steps, from) is None {
            let i = choose|i: int|
                from + 1 <= i < steps.len() && #[trigger] step_fault(steps, i) is Some;
            assert(step_fault(steps, i) is Some);
        }
    }
}

proof fn lemma_step_deps_fault(steps: Seq<StepModel>, i: int, d: int)
    requires
        0 <= i < steps.len() ==> 0 <= d <= steps[i].deps.len(),
        0 <= i <= steps.len(),
        i == steps.len() ==> d == 0,
    ensures
        step_deps_fault(steps, i, d) is None <==> forall|j: int, e: int|
            #![trigger steps[j].deps[e]]
            i <= j < steps.len() && 0 <= e < steps[j].deps.len() && (j == i ==> d <= e)
                ==> step_dep_fault(steps, j, e) is None,
    decreases steps.len() - i, (if 0 <= i < steps.len() { steps[i].deps.len() - d } else { 0 }),
{
    if i < steps.len() {
        if d >= steps[i].deps.len() {
            lemma_step_deps_fault(steps, i + 1, 0);
            if step_deps_fault(steps, i, d) is Some {
                let (j, e) = choose|j: int, e: int|
                    #![trigger steps[j].deps[e]]
                    i + 1 <= j < steps.len() && 0 <= e < steps[j].deps.len() && (j == i + 1 ==> 0
                        <= e) && step_dep_fault(steps, j, e) is Some;
                assert(i <= j < steps.len() && 0 <= e < steps[j].deps.len());
                assert(steps[j].deps[e] == steps[j].deps[e]);
            } else {
                assert forall|j: int, e: int|
                    #![trigger steps[j].deps[e]]
                    i <= j < steps.len() && 0 <= e < steps[j].deps.len() && (j == i ==> d
                        <= e) implies step_dep_fault(steps, j, e) is None by {
                    assert(j >= i + 1);
                }
            }
        } else {
            lemma_step_deps_fault(steps, i, d + 1);
            if step_deps_fault(steps, i, d) is None {
                assert forall|j: int, e: int|
                    #![trigger steps[j].deps[e]]
                    i <= j < steps.len() && 0 <= e < steps[j].deps.len() && (j == i ==> d
                        <= e) implies step_dep_fault(steps, j, e) is None by {
                    if j != i || e != d {
                        assert(step_deps_fault(steps, i, d + 1) is None);
                    }
                }
            } else if step_dep_fault(steps, i, d) is None {
                let (j, e) = choose|j: int, e: int|
                    #![trigger steps[j].deps[e]]
                    i <= j < steps.len() && 0 <= e < steps[j].deps.len() && (j == i ==> d + 1
                        <= e) && step_dep_fault(steps, j, e) is Some;
                assert(steps[j].deps[e] == steps[j].deps[e]);
            } else {
                assert(steps[i].deps[d] == steps[i].deps[d]);
            }
        }
    }
}

/// What a step is accepted for: an id of its own, prose that says something, and what its
/// kind takes. A person's step and one that settles without a dispatch take no persona
/// and no turn budget; an agent's takes a persona, other than the one reserved for
/// drafting, and a budget of at least one turn where it names one.
pub proof fn law_what_a_step_carries(steps: Seq<StepModel>, i: int)
    requires
        0 <= i < steps.len(),
    ensures
        ({
            let step = steps[i];
            step_fault(steps, i) is None <==> {
                &&& !blank(step.id)
                &&& forall|j: int| 0 <= j < i ==> (#[trigger] steps[j]).id != step.id
                &&& step.task is Some && !blank(step.task->0)
                &&& match step.kind {
                    NodeKind::Human => {
                        &&& !step.id.contains('/')
                        &&& step.persona is None
                        &&& step.max_turns is None
                        &&& !step.expects_no_diff
                    },
                    NodeKind::Agent => if step.expects_no_diff {
                        step.persona is None && step.max_turns is None
                    } else {
                        &&& step.persona is Some
                        &&& step.persona->0 != "pr-author"@
                        &&& step.max_turns != Some(0u32)
                    },
                }
            }
        }),
{
    reveal_strlit("pr-author");
    if !(forall|j: int| 0 <= j < i ==> (#[trigger] steps[j]).id != steps[i].id) {
        let j = choose|j: int| 0 <= j < i && (#[trigger] steps[j]).id == steps[i].id;
        assert(steps[j].id == steps[i].id);
    }
}

/// What a workstream is accepted for: it has a step, each of its steps carries what a
/// step must, and each dependency of a step is another step of the same node.
pub proof fn law_what_a_workstream_carries(steps: Seq<StepModel>)
    ensures
        workstream_fault(steps) is None <==> {
            &&& steps.len() > 0
            &&& forall|i: int| 0 <= i < steps.len() ==> #[trigger] step_fault(steps, i) is None
            &&& forall|i: int, d: int|
                #![trigger steps[i].deps[d]]
                0 <= i < steps.len() && 0 <= d < steps[i].deps.len() ==> {
                    &&& steps[i].deps[d] != steps[i].id
                    &&& exists|j: int|
                        0 <= j < steps.len() && #[trigger] steps[j].id == steps[i].deps[d]
                }
        },
{
    lemma_steps_fault(steps, 0);
    if steps.len() > 0 {
        lemma_step_deps_fault(steps, 0, 0);
        assert forall|i: int, d: int|
            #![trigger steps[i].deps[d]]
            0 <= i < steps.len() && 0 <= d < steps[i].deps.len() implies (step_dep_fault(
            steps,
            i,
            d,
        ) is None <==> steps[i].deps[d] != steps[i].id && exists|j: int|
            0 <= j < steps.len() && #[trigger] steps[j].id == steps[i].deps[d]) by {}
    }
}

/// What a node is accepted for, field by field.
///
/// Whatever is dispatched or acted on says what to do: a node without steps carries a
/// task, and the task is not blank. A person's action and a node that settles without a
/// dispatch take no persona and no turn budget; what is dispatched takes a persona, other
/// than the one reserved for drafting, and a budget of at least one turn where it names
/// one. Steps need a repository, and stand in place of the node's own task, persona and
/// budget.
pub proof fn law_what_a_node_carries(n: NodeModel)
    ensures
        node_fault(n) is None <==> {
            &&& n.persona != Some("pr-author"@)
            &&& n.repo is Some && n.title is Some ==> title_fault(n.title->0) is None
            &&& n.amendment is Some ==> !blank(n.amendment->0)
            &&& forall|c: int|
                0 <= c < n.consumes.len() ==> n.deps.contains((#[trigger] n.consumes[c]).0)
            &&& n.steps is None ==> n.task is Some && !blank(n.task->0)
            &&& match n.kind {
                NodeKind::Human => {
                    &&& !n.id.contains('/')
                    &&& n.persona is None
                    &&& n.max_turns is None
                    &&& n.repo is None
                    &&& n.steps is None
                    &&& n.context is None
                    &&& !n.expects_no_diff
                },
                NodeKind::Agent => if n.expects_no_diff {
                    n.persona is None && n.max_turns is None && n.steps is None
                } else {
                    match n.steps {
                        None => n.persona is Some && n.max_turns != Some(0u32),
                        Some(steps) => {
                            &&& n.repo is Some
                            &&& n.persona is None
                            &&& n.task is None
                            &&& n.max_turns is None
                            &&& workstream_fault(steps) is None
                        },
                    }
                },
            }
        },
{
    reveal_strlit("pr-author");
    lemma_no_stray(n, 0);
}

/// Whatever an accepted plan has dispatched or acted on says what to do: each of its nodes
/// without steps carries a task that is not blank, and so does each step.
pub proof fn law_what_is_dispatched_says_what_to_do(p: PlanModel, i: int)
    requires
        edited_verdict(p, Ok(())),
        0 <= i < p.tasks.len(),
    ensures
        p.tasks[i].steps is None ==> p.tasks[i].task is Some && !blank(p.tasks[i].task->0),
        p.tasks[i].steps is Some ==> forall|s: int|
            0 <= s < p.tasks[i].steps->0.len() ==> (#[trigger] p.tasks[i].steps->0[s]).task is Some
                && !blank(p.tasks[i].steps->0[s].task->0),
{
    law_an_accepted_plan_is_a_graph(p);
    let n = p.tasks[i];
    law_what_a_node_carries(n);
    if n.steps is Some {
        let steps = n.steps->0;
        law_what_a_workstream_carries(steps);
        assert forall|s: int| 0 <= s < steps.len() implies (#[trigger] steps[s]).task is Some
            && !blank(steps[s].task->0) by {
            assert(step_fault(steps, s) is None);
            law_what_a_step_carries(steps, s);
        }
    }
}

proof fn lemma_tasks_fault(tasks: Seq<NodeModel>, from: int)
    requires
        0 <= from <= tasks.len(),
    ensures
        match tasks_fault(tasks, from) {
            None => forall|i: int|
                from <= i < tasks.len() ==> #[trigger] task_fault(tasks, i) is None,
            Some(why) => exists|i: int|
                from <= i < tasks.len() && #[trigger] task_fault(tasks, i) == Some(why)
                    && forall|j: int| from <= j < i ==> #[trigger] task_fault(tasks, j) is None,
        },
    decreases tasks.len() - from,
{
    if from < tasks.len() {
        lemma_tasks_fault(tasks, from + 1);
        if task_fault(tasks, from) is Some {
            assert(tasks_fault(tasks, from) == task_fault(tasks, from));
        } else {
            match tasks_fault(tasks, from + 1) {
                None => {
                    assert forall|i: int| from <= i < tasks.len() implies #[trigger] task_fault(
                        tasks,
                        i,
                    ) is None by {}
                },
                Some(why) => {
                    let i = choose|i: int|
                        from + 1 <= i < tasks.len() && #[trigger] task_fault(tasks, i) == Some(why)
                            && forall|j: int|
                            from + 1 <= j < i ==> #[trigger] task_fault(tasks, j) is None;
                    assert forall|j: int| from <= j < i implies #[trigger] task_fault(
                        tasks,
                        j,
                    ) is None by {}
                },
            }
        }
    }
}

proof fn lemma_deps_fault(tasks: Seq<NodeModel>, i: int, d: int)
    requires
        0 <= i <= tasks.len(),
        0 <= i < tasks.len() ==> 0 <= d <= tasks[i].deps.len(),
        i == tasks.len() ==> d == 0,
        deps_fault(tasks, i, d) is Some,
    ensures
        exists|j: int, e: int|
            #![trigger tasks[j].deps[e]]
            i <= j < tasks.len() && 0 <= e < tasks[j].deps.len() && dep_fault(tasks, j, e)
                == deps_fault(tasks, i, d),
    decreases tasks.len() - i, (if 0 <= i < tasks.len() { tasks[i].deps.len() - d } else { 0 }),
{
    if i < tasks.len() {
        if d >= tasks[i].deps.len() {
            lemma_deps_fault(tasks, i + 1, 0);
        } else if dep_fault(tasks, i, d) is None {
            lemma_deps_fault(tasks, i, d + 1);
        } else {
            assert(tasks[i].deps[d] == tasks[i].deps[d]);
        }
    }
}

/// What a graph is accepted for: a version this build reads, room for one dispatch, a goal
/// that says something where there is one, and nodes with ids of their own, each carrying
/// what a node must and depending on other nodes of the plan or on another run's, without
/// going round.
pub proof fn law_what_a_graph_is_accepted_for(p: PlanModel)
    ensures
        edited_verdict(p, Ok(())) <==> {
            &&& p.schema_version == 1 || p.schema_version == 2 || p.schema_version == 3
            &&& p.concurrency >= 1
            &&& p.goal is Some ==> !blank(p.goal->0)
            &&& forall|i: int|
                0 <= i < p.tasks.len() ==> !blank((#[trigger] p.tasks[i]).id) && node_fault(
                    p.tasks[i],
                ) is None
            &&& forall|i: int, j: int|
                0 <= i < j < p.tasks.len() ==> (#[trigger] p.tasks[i]).id != (
                #[trigger] p.tasks[j]).id
            &&& forall|i: int, d: int|
                #![trigger p.tasks[i].deps[d]]
                0 <= i < p.tasks.len() && 0 <= d < p.tasks[i].deps.len() ==> {
                    let dep = p.tasks[i].deps[d];
                    &&& dep != p.tasks[i].id
                    &&& crossdag::reference(dep) || !crossdag::malformed(dep) && exists|j: int|
                        0 <= j < p.tasks.len() && #[trigger] p.tasks[j].id == dep
                }
            &&& acyclic(p.tasks)
        },
{
    let tasks = p.tasks;
    lemma_tasks_fault(tasks, 0);
    if edited_verdict(p, Ok(())) {
        law_an_accepted_plan_is_a_graph(p);
        assert forall|i: int, j: int| 0 <= i < j < tasks.len() implies (#[trigger] tasks[i]).id != (
        #[trigger] tasks[j]).id by {
            assert(task_fault(tasks, j) is None);
        }
        assert forall|i: int, d: int|
            #![trigger tasks[i].deps[d]]
            0 <= i < tasks.len() && 0 <= d < tasks[i].deps.len() && !crossdag::reference(
                tasks[i].deps[d],
            ) implies !crossdag::malformed(tasks[i].deps[d]) by {
            lemma_no_dep_fault(tasks, 0, 0, i, d);
        }
    }
    if deps_fault(tasks, 0, 0) is Some {
        if tasks.len() > 0 {
            lemma_deps_fault(tasks, 0, 0);
            let (j, e) = choose|j: int, e: int|
                #![trigger tasks[j].deps[e]]
                0 <= j < tasks.len() && 0 <= e < tasks[j].deps.len() && dep_fault(tasks, j, e)
                    == deps_fault(tasks, 0, 0);
            assert(dep_fault(tasks, j, e) is Some);
            assert(tasks[j].deps[e] == tasks[j].deps[e]);
        }
    }
    if tasks_fault(tasks, 0) is Some {
        let i = choose|i: int|
            0 <= i < tasks.len() && #[trigger] task_fault(tasks, i) == tasks_fault(tasks, 0);
        assert(task_fault(tasks, i) is Some);
        assert(tasks[i].id == tasks[i].id);
        if exists|j: int| 0 <= j < i && #[trigger] tasks[j].id == tasks[i].id {
            let j = choose|j: int| 0 <= j < i && #[trigger] tasks[j].id == tasks[i].id;
            assert(tasks[j].id == tasks[i].id && 0 <= j < i < tasks.len());
        }
    }
}

proof fn lemma_versions_fault(p: PlanModel, from: int)
    requires
        0 <= from <= p.tasks.len(),
    ensures
        versions_fault(p, from) is None <==> forall|i: int|
            from <= i < p.tasks.len() ==> #[trigger] version_fault(p, i) is None,
    decreases p.tasks.len() - from,
{
    if from < p.tasks.len() {
        lemma_versions_fault(p, from + 1);
        if versions_fault(p, from) is None {
            assert forall|i: int| from <= i < p.tasks.len() implies #[trigger] version_fault(
                p,
                i,
            ) is None by {}
        } else if version_fault(p, from) is None {
            let i = choose|i: int|
                from + 1 <= i < p.tasks.len() && #[trigger] version_fault(p, i) is Some;
            assert(version_fault(p, i) is Some);
        }
    }
}

/// What a launch is accepted for beyond that: it has a node, only the current version
/// gives a change request its body, and from that version on what is published has a
/// title.
pub proof fn law_what_a_launch_is_accepted_for(p: PlanModel)
    ensures
        plan_verdict(p, Ok(())) <==> {
            &&& p.tasks.len() > 0
            &&& edited_verdict(p, Ok(()))
            &&& forall|i: int|
                0 <= i < p.tasks.len() ==> {
                    &&& (#[trigger] p.tasks[i]).body is Some ==> p.schema_version == 3
                    &&& p.schema_version == 3 && p.tasks[i].repo is Some ==> p.tasks[i].title is Some
                }
        },
{
    lemma_versions_fault(p, 0);
    if p.tasks.len() > 0 && edited_verdict(p, Ok(())) {
        law_what_a_graph_is_accepted_for(p);
        if versions_fault(p, 0) is Some {
            let i = choose|i: int|
                0 <= i < p.tasks.len() && #[trigger] version_fault(p, i) is Some;
            assert(version_fault(p, i) is Some);
            assert(p.tasks[i] == p.tasks[i]);
        } else {
            assert forall|i: int| 0 <= i < p.tasks.len() implies (((
            #[trigger] p.tasks[i]).body is Some ==> p.schema_version == 3) && (p.schema_version
                == 3 && p.tasks[i].repo is Some ==> p.tasks[i].title is Some)) by {
                assert(version_fault(p, i) is None);
            }
        }
    }
}

/// A refused plan is refused for its first faulty node: nothing is wrong with any node
/// written before the one it is told of.
pub proof fn law_the_first_faulty_node_is_the_one_told(p: PlanModel, why: Seq<char>)
    requires
        p.schema_version == 1 || p.schema_version == 2 || p.schema_version == 3,
        p.concurrency >= 1,
        p.goal is Some ==> !blank(p.goal->0),
        tasks_fault(p.tasks, 0) == Some(why),
    ensures
        plan_fault(p) == Some(why),
        exists|i: int|
            0 <= i < p.tasks.len() && #[trigger] task_fault(p.tasks, i) == Some(why) && forall|
                j: int,
            |
                0 <= j < i ==> !blank((#[trigger] p.tasks[j]).id) && node_fault(p.tasks[j]) is None,
{
    lemma_tasks_fault(p.tasks, 0);
    let i = choose|i: int|
        0 <= i < p.tasks.len() && #[trigger] task_fault(p.tasks, i) == Some(why) && forall|j: int|
            0 <= j < i ==> #[trigger] task_fault(p.tasks, j) is None;
    assert forall|j: int| 0 <= j < i implies !blank((#[trigger] p.tasks[j]).id) && node_fault(
        p.tasks[j],
    ) is None by {
        assert(task_fault(p.tasks, j) is None);
    }
}

/// What a node that lacks one thing is told. A reserved persona is told before anything
/// else, and a node that is otherwise in order is told what it lacks, by what it is: a
/// person's action, a node that settles without a dispatch, one without a repository, or
/// one with a repository and no steps.
pub proof fn law_what_a_faulty_node_is_told(n: NodeModel)
    ensures
        n.persona == Some("pr-author"@) ==> node_fault(n) == Some(RESERVED_PERSONA@),
        n.persona != Some("pr-author"@) && n.repo is None && n.amendment is None
            && n.consumes.len() == 0 ==> {
            let untold = n.task is None || blank(n.task->0);
            &&& n.kind == NodeKind::Human && n.id.contains('/') ==> node_fault(n) == Some(
                "a human id cannot contain '/', which addresses a step"@,
            )
            &&& n.kind == NodeKind::Human && !n.id.contains('/') && untold ==> node_fault(n)
                == Some("a human node needs task prose"@)
            &&& n.kind == NodeKind::Agent && n.expects_no_diff && untold ==> node_fault(n) == Some(
                "an expects_no_diff node needs task prose"@,
            )
            &&& n.kind == NodeKind::Agent && !n.expects_no_diff && n.max_turns == Some(0u32)
                ==> node_fault(n) == Some(NO_TURN@)
            &&& n.kind == NodeKind::Agent && !n.expects_no_diff && n.max_turns is None
                && n.steps is Some ==> node_fault(n) == Some(
                "steps run on one branch, so they need a repo"@,
            )
            &&& n.kind == NodeKind::Agent && !n.expects_no_diff && n.max_turns is None
                && n.steps is None && n.persona is None ==> node_fault(n) == Some(
                "a direct agent node needs a persona"@,
            )
            &&& n.kind == NodeKind::Agent && !n.expects_no_diff && n.max_turns is None
                && n.steps is None && n.persona is Some && untold ==> node_fault(n) == Some(
                "a direct agent node needs task prose"@,
            )
        },
        n.kind == NodeKind::Agent && !n.expects_no_diff && n.repo is Some && n.title is None
            && n.amendment is None && n.consumes.len() == 0 && n.max_turns is None && n.steps is None
            ==> {
            &&& n.persona is None ==> node_fault(n) == Some(
                "a lifecycle node needs a persona or steps"@,
            )
            &&& n.persona is Some && n.persona->0 != "pr-author"@ && (n.task is None || blank(
                n.task->0,
            )) ==> node_fault(n) == Some("a lifecycle node needs task prose"@)
        },
{
    lemma_no_stray(n, 0);
}

} // verus!
