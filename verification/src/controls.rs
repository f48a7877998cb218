//! The per-node controls a dispatch runs under.
use vstd::prelude::*;

use crate::plan::{Node, Step};
use crate::text;
use crate::text::texts;

verus! {

/// The member of a node-scope agent graph that does the node's own work.
pub const WORKER_MEMBER: &'static str = "worker";

/// What a turn budget of nothing is told.
pub const NO_TURN: &'static str =
    "`max_turns` is 0, so its dispatch could take no turn at all — give it one or more, or leave it out";

/// The controls one dispatch runs under.
#[derive(Debug, Clone, Copy, PartialEq, Eq)]
pub struct NodeControls {
    /// The turn budget; never zero where it is well formed.
    pub max_turns: Option<u32>,
}

impl NodeControls {
    /// A budget, where there is one, is at least one turn.
    pub open spec fn wf(&self) -> bool {
        self.max_turns != Some(0u32)
    }

    /// The settings a launch carries for these controls.
    pub open spec fn settings(&self) -> Seq<Seq<char>> {
        match self.max_turns {
            Some(turns) => seq![
                "members."@ + WORKER_MEMBER@ + ".max_turns="@ + text::dec(turns as nat),
            ],
            None => Seq::empty(),
        }
    }

    /// The controls a declared turn budget amounts to.
    pub fn of_budget(max_turns: Option<u32>) -> (r: Result<Self, String>)
        ensures
            match r {
                Ok(controls) => max_turns != Some(0u32) && controls.max_turns == max_turns,
                Err(why) => max_turns == Some(0u32) && why@ == NO_TURN@,
            },
    {
        match max_turns {
            Some(turns) => {
                if turns == 0 {
                    Err(NO_TURN.to_owned())
                } else {
                    Ok(NodeControls { max_turns })
                }
            },
            None => Ok(NodeControls { max_turns }),
        }
    }

    /// The controls a node's own dispatch runs under, or why it can have none.
    pub fn of_node(node: &Node) -> (r: Result<Self, String>)
        ensures
            match r {
                Ok(controls) => node.max_turns != Some(0u32) && controls.max_turns
                    == node.max_turns,
                Err(why) => node.max_turns == Some(0u32) && why@ == NO_TURN@,
            },
    {
        NodeControls::of_budget(node.max_turns)
    }

    /// The controls a step's dispatch runs under, or why it can have none.
    pub fn of_step(step: &Step) -> (r: Result<Self, String>)
        ensures
            match r {
                Ok(controls) => step.max_turns != Some(0u32) && controls.max_turns
                    == step.max_turns,
                Err(why) => step.max_turns == Some(0u32) && why@ == NO_TURN@,
            },
    {
        NodeControls::of_budget(step.max_turns)
    }

    /// The settings a graph launch carries for these controls, or why one of them
    /// has nowhere to land.
    pub fn overrides(&self) -> (r: Result<Vec<String>, String>)
        ensures
            match r {
                Ok(sets) => self.wf() && texts(sets@) == self.settings(),
                Err(why) => !self.wf() && why@ == NO_TURN@,
            },
    {
        match self.max_turns {
            Some(turns) => {
                if turns == 0 {
                    return Err(NO_TURN.to_owned());
                }
                let mut set: String = String::from_str("members.");
                set.append(WORKER_MEMBER);
                set.append(".max_turns=");
                text::push_dec(&mut set, turns as u64);
                let mut sets: Vec<String> = Vec::new();
                sets.push(set);
                assert(texts(sets@) =~= self.settings());
                Ok(sets)
            },
            None => {
                let sets: Vec<String> = Vec::new();
                assert(texts(sets@) =~= self.settings());
                Ok(sets)
            },
        }
    }
}

impl Default for NodeControls {
    fn default() -> (r: Self)
        ensures
            r.max_turns is None,
    {
        NodeControls { max_turns: None }
    }
}

/// A turn budget reaches the one member that does the node's work, as a number; a dispatch
/// without one sets nothing.
pub proof fn law_a_budget_reaches_the_worker(controls: NodeControls)
    ensures
        controls.max_turns is None ==> controls.settings().len() == 0,
        controls.max_turns matches Some(turns) ==> controls.settings() == seq![
            "members."@ + "worker"@ + ".max_turns="@ + text::dec(turns as nat),
        ],
        controls.wf() <==> controls.max_turns is None || controls.max_turns->0 >= 1,
{
    reveal_strlit("worker");
}

} // verus!
