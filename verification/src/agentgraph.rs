//! The words the agent-graph library writes on the stream this engine relays.
use vstd::prelude::*;

verus! {

/// A kind of event of the agent-graph library that this engine reads.
#[derive(Debug, Clone, Copy, PartialEq, Eq, Structural)]
pub enum GraphEvent {
    /// A turn of a conversation opened.
    TurnStarted,
    /// A member died before it settled.
    MemberDied,
    /// A member settled.
    MemberSettled,
}

/// The word a kind is written as.
pub open spec fn event_word(kind: GraphEvent) -> Seq<char> {
    match kind {
        GraphEvent::TurnStarted => "turn-started"@,
        GraphEvent::MemberDied => "member-died"@,
        GraphEvent::MemberSettled => "member-settled"@,
    }
}

/// `oneagentgraph::event::EventKind::as_str`: the kind's own word, `turn-started`,
/// `member-died` or `member-settled`.
#[verifier::external_body]
pub(crate) fn event_kind(kind: GraphEvent) -> (r: &'static str)
    ensures
        r@ == event_word(kind),
{
    match kind {
        GraphEvent::TurnStarted => oneagentgraph::event::EventKind::TurnStarted.as_str(),
        GraphEvent::MemberDied => oneagentgraph::event::EventKind::MemberDied.as_str(),
        GraphEvent::MemberSettled => oneagentgraph::event::EventKind::MemberSettled.as_str(),
    }
}

/// Who takes a turn, as the stream names it.
#[derive(Debug, Clone, Copy, PartialEq, Eq, Structural)]
pub enum Role {
    /// The party doing the work.
    Assistant,
    /// The party judging it.
    User,
}

/// The word a role is written as.
pub open spec fn role_word(role: Role) -> Seq<char> {
    match role {
        Role::Assistant => "assistant"@,
        Role::User => "user"@,
    }
}

/// `oneagentgraph::event::Party::as_str`: the role's own word, `assistant` or
/// `user`.
#[verifier::external_body]
pub(crate) fn role_name(role: Role) -> (r: &'static str)
    ensures
        r@ == role_word(role),
{
    match role {
        Role::Assistant => oneagentgraph::event::Party::Assistant.as_str(),
        Role::User => oneagentgraph::event::Party::User.as_str(),
    }
}

/// `oneagentgraph::event::Origin::as_str` of a turn that opened on a delivered
/// note: `delivered`.
#[verifier::external_body]
pub(crate) fn delivered_origin() -> (r: &'static str)
    ensures
        r@ == "delivered"@,
{
    oneagentgraph::event::Origin::Delivered.as_str()
}

/// The words this engine reads on the stream it relays.
pub proof fn law_the_words_on_the_stream()
    ensures
        event_word(GraphEvent::TurnStarted) == "turn-started"@,
        event_word(GraphEvent::MemberDied) == "member-died"@,
        event_word(GraphEvent::MemberSettled) == "member-settled"@,
        role_word(Role::Assistant) == "assistant"@,
        role_word(Role::User) == "user"@,
{
}

} // verus!
