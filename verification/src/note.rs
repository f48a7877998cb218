//! The manager-note delivery seam: one note that reaches whichever party of a
//! node's live dispatch is speaking, and reaches the other with its response —
//! or, where it reached no turn, is carried to the node's next dispatch.
//!
//! What is decided here is which node a note is for, where it may land, what
//! stands for a node's current dispatch, and when a presentation has been seen to
//! happen. Reaching nobody is an error: a note that would reach nobody is refused,
//! naming what left it nowhere to go.
use vstd::prelude::*;

use crate::agentgraph;
use crate::agentgraph::{event_word, role_word, GraphEvent, Role};
use crate::error::Error;
use crate::event::{Envelope, PipelineKind, Source};
use crate::json;
use crate::json::{count_in, field_in, text_in, Json};
use crate::plan::copy_text;
use crate::text;
use crate::text::{blank, dec, text_of, trim};

verus! {

/// Whose task a note says it updates.
#[derive(Debug, Clone, Copy, PartialEq, Eq, Structural)]
pub enum Addressee {
    /// The worker's.
    Worker,
    /// The supervisor's.
    Supervisor,
    /// Both parties'.
    Both,
}

/// A party of a node's conversation.
#[derive(Debug, Clone, Copy, PartialEq, Eq, Structural)]
pub enum Party {
    /// The one doing the work.
    Worker,
    /// The one judging it.
    Supervisor,
}

/// Why a note is not one the conversation would take.
#[derive(Debug, PartialEq, Eq)]
pub enum NoteRefused {
    /// Its text is blank.
    Blank,
    /// Its criterion was refused, in these words.
    Criterion(String),
}

/// A note a conversation takes: its text is not blank and carries no spacing
/// around it, and so is the criterion it binds, where it binds one.
#[derive(Debug, PartialEq, Eq)]
pub struct Note {
    /// Whose task it updates.
    pub addressee: Addressee,
    /// What the party reads.
    pub text: String,
    /// The criterion it binds.
    pub criterion: Option<String>,
}

/// What a text that should be a criterion is refused with, and nothing where it is
/// one: the `Display` of what `oneagentgraph::note::Criterion::try_from` answers.
pub uninterp spec fn criterion_refusal(text: Seq<char>) -> Option<Seq<char>>;

/// `oneagentgraph::note::NoteText::try_from`: the text trimmed, refused exactly
/// where nothing is left of it.
#[verifier::external_body]
fn note_text(text: &str) -> (r: Result<String, NoteRefused>)
    ensures
        match r {
            Ok(kept) => !blank(text@) && kept@ == trim(text@),
            Err(why) => blank(text@) && why == NoteRefused::Blank,
        },
{
    match oneagentgraph::note::NoteText::try_from(text.to_owned()) {
        Ok(kept) => Ok(kept.as_str().to_owned()),
        Err(_) => Err(NoteRefused::Blank),
    }
}

/// `oneagentgraph::note::Criterion::try_from`: the text trimmed, or that library's
/// own refusal of the text. Which texts it refuses, and in which words, is named.
#[verifier::external_body]
fn criterion_of(text: &str) -> (r: Result<String, NoteRefused>)
    ensures
        match r {
            Ok(kept) => criterion_refusal(text@) is None && kept@ == trim(text@),
            Err(NoteRefused::Criterion(why)) => criterion_refusal(text@) == Some(why@),
            Err(NoteRefused::Blank) => false,
        },
{
    match oneagentgraph::note::Criterion::try_from(text) {
        Ok(kept) => Ok(kept.as_str().to_owned()),
        Err(refused) => Err(NoteRefused::Criterion(refused.to_string())),
    }
}

/// What a note's text and criterion amount to, from what the conversation's own
/// constructors said of each: the text is answered first.
pub fn of_parts(
    addressee: Addressee,
    text: Result<String, NoteRefused>,
    criterion: Option<Result<String, NoteRefused>>,
) -> (r: Result<Note, NoteRefused>)
    ensures
        match r {
            Ok(note) => {
                &&& note.addressee == addressee
                &&& text == Ok::<String, NoteRefused>(note.text)
                &&& match criterion {
                    None => note.criterion is None,
                    Some(kept) => note.criterion is Some && kept == Ok::<String, NoteRefused>(
                        note.criterion->0,
                    ),
                }
            },
            Err(why) => match text {
                Err(refused) => why == refused,
                Ok(_) => criterion == Some(Err::<String, NoteRefused>(why)),
            },
        },
{
    let text = match text {
        Ok(text) => text,
        Err(refused) => {
            return Err(refused);
        },
    };
    match criterion {
        None => Ok(Note { addressee, text, criterion: None }),
        Some(Ok(kept)) => Ok(Note { addressee, text, criterion: Some(kept) }),
        Some(Err(refused)) => Err(refused),
    }
}

/// The note one `note` op carries, built through the conversation's own
/// constructors, so no path assembles a note the conversation would have refused.
pub fn of(addressee: Addressee, text: &str, criterion: &Option<String>) -> (r: Result<
    Note,
    NoteRefused,
>)
    ensures
        match r {
            Ok(note) => {
                &&& !blank(text@)
                &&& note.addressee == addressee
                &&& note.text@ == trim(text@)
                &&& match text_of(*criterion) {
                    None => note.criterion is None,
                    Some(asked) => criterion_refusal(asked) is None && text_of(note.criterion)
                        == Some(trim(asked)),
                }
            },
            Err(NoteRefused::Blank) => blank(text@),
            Err(NoteRefused::Criterion(why)) => !blank(text@) && criterion is Some
                && criterion_refusal(text_of(*criterion)->0) == Some(why@),
        },
{
    let kept = note_text(text);
    if kept.is_err() {
        return of_parts(addressee, kept, None);
    }
    match criterion {
        None => of_parts(addressee, kept, None),
        Some(criterion) => {
            let bound = criterion_of(criterion.as_str());
            of_parts(addressee, kept, Some(bound))
        },
    }
}

/// What a conversation acknowledged a note with.
#[derive(Debug, PartialEq, Eq)]
pub enum Accepted {
    /// Nobody was taking a turn; the next turn takes it.
    Queued,
    /// This party's live turn was reopened, or re-taken, with it.
    Interrupted {
        /// The party.
        party: Party,
    },
    /// The judge completed with it in hand.
    JudgedWith {
        /// What the judge said.
        completion_reason: String,
    },
}

/// What became of one note, as the run records it.
#[derive(Debug, PartialEq, Eq)]
pub enum Reached {
    /// Nobody was taking a turn, so the next turn to open takes it.
    Queued,
    /// The worker's turn was live and was reopened carrying it.
    Worker,
    /// The judge's turn was live, so its decision was re-taken with it in hand.
    Supervisor,
    /// The judge's re-taken decision was completion.
    JudgedWith {
        /// The judge's completion reason, decided with the note in hand.
        completion_reason: String,
    },
    /// No turn took it, so it was carried to the node's next dispatch.
    Carried,
}

impl Clone for Reached {
    fn clone(&self) -> (r: Self)
        ensures
            r == *self,
    {
        match self {
            Reached::Queued => Reached::Queued,
            Reached::Worker => Reached::Worker,
            Reached::Supervisor => Reached::Supervisor,
            Reached::JudgedWith { completion_reason } => Reached::JudgedWith {
                completion_reason: completion_reason.clone(),
            },
            Reached::Carried => Reached::Carried,
        }
    }
}

impl Reached {
    /// The disposition a conversation's acknowledgement is recorded as.
    pub open spec fn recorded(accepted: Accepted) -> Reached {
        match accepted {
            Accepted::Queued => Reached::Queued,
            Accepted::Interrupted { party: Party::Worker } => Reached::Worker,
            Accepted::Interrupted { party: Party::Supervisor } => Reached::Supervisor,
            Accepted::JudgedWith { completion_reason } => Reached::JudgedWith {
                completion_reason,
            },
        }
    }

    /// The disposition a conversation's acknowledgement is recorded as.
    pub fn of_accepted(accepted: &Accepted) -> (r: Self)
        ensures
            r == Reached::recorded(*accepted),
    {
        match accepted {
            Accepted::Queued => Reached::Queued,
            Accepted::Interrupted { party } => match party {
                Party::Worker => Reached::Worker,
                Party::Supervisor => Reached::Supervisor,
            },
            Accepted::JudgedWith { completion_reason } => Reached::JudgedWith {
                completion_reason: completion_reason.clone(),
            },
        }
    }

    /// Whether a conversation actually read the note: every disposition but being
    /// carried means a party of it took the note.
    pub fn a_conversation_read_it(&self) -> (r: bool)
        ensures
            r == !(self is Carried),
    {
        match self {
            Reached::Carried => false,
            _ => true,
        }
    }

    /// The word a disposition is recorded under.
    pub open spec fn word(&self) -> Seq<char> {
        match self {
            Reached::Queued => "queued"@,
            Reached::Worker => "worker"@,
            Reached::Supervisor => "supervisor"@,
            Reached::JudgedWith { .. } => "judged-with"@,
            Reached::Carried => "carried"@,
        }
    }

    /// The word the run's own record carries this disposition under.
    pub fn as_str(&self) -> (r: &'static str)
        ensures
            r@ == self.word(),
    {
        match self {
            Reached::Queued => "queued",
            Reached::Worker => "worker",
            Reached::Supervisor => "supervisor",
            Reached::JudgedWith { .. } => "judged-with",
            Reached::Carried => "carried",
        }
    }

    /// Who had been shown the note when the conversation acknowledged it.
    pub open spec fn confirmed(&self) -> Seq<Party> {
        match self {
            Reached::Supervisor | Reached::JudgedWith { .. } => seq![Party::Supervisor],
            _ => Seq::empty(),
        }
    }

    /// The parties the conversation had already shown the note to when it
    /// acknowledged it: only what is confirmed at that instant, never what the
    /// conversation intends to do next.
    pub fn shown_at_delivery(&self) -> (r: Vec<Party>)
        ensures
            r@ == self.confirmed(),
    {
        let mut out: Vec<Party> = Vec::new();
        match self {
            Reached::Supervisor | Reached::JudgedWith { .. } => {
                out.push(Party::Supervisor);
            },
            _ => {},
        }
        assert(out@ =~= self.confirmed());
        out
    }

    /// Who the conversation said it will present the note to.
    pub open spec fn routed(&self) -> Seq<Party> {
        match self {
            Reached::Worker | Reached::Queued => seq![Party::Worker, Party::Supervisor],
            Reached::Supervisor => seq![Party::Worker],
            _ => Seq::empty(),
        }
    }

    /// The parties the conversation said it will present the note to, which the
    /// acknowledgement does not confirm.
    pub fn routed_to(&self) -> (r: Vec<Party>)
        ensures
            r@ == self.routed(),
    {
        let mut out: Vec<Party> = Vec::new();
        match self {
            Reached::Worker | Reached::Queued => {
                out.push(Party::Worker);
                out.push(Party::Supervisor);
            },
            Reached::Supervisor => {
                out.push(Party::Worker);
            },
            _ => {},
        }
        assert(out@ =~= self.routed());
        out
    }
}

/// No disposition confirms a presentation it also routes onward, and a note no
/// conversation read is neither shown nor routed.
pub proof fn law_a_presentation_is_confirmed_or_routed(reached: Reached, party: Party)
    ensures
        !(reached.confirmed().contains(party) && reached.routed().contains(party)),
        reached is Carried ==> !reached.confirmed().contains(party) && !reached.routed().contains(
            party,
        ),
{
}

/// What one delivery answered.
#[derive(Debug, PartialEq, Eq)]
pub enum Delivered {
    /// The run recorded a disposition for it, and this is which.
    To(Reached),
    /// Accepted and durable, and not answered yet. It is still queued: this is not
    /// an instruction to send it again.
    Queued,
}

/// Whether a note attempts the running turn, or waits for the next dispatch.
#[derive(Debug, Clone, Copy, PartialEq, Eq, Structural)]
pub enum Deliver {
    /// The running turn is attempted.
    Live,
    /// Only the next dispatch is.
    Next,
}

/// One `note` op, as it is submitted to a run.
#[derive(Debug, PartialEq, Eq)]
pub struct NoteOp {
    /// The node it is for.
    pub id: String,
    /// Whose task it updates.
    pub addressee: Addressee,
    /// What the party reads.
    pub text: String,
    /// The criterion it binds.
    pub criterion: Option<String>,
    /// Whether the running turn is attempted.
    pub deliver: Deliver,
    /// Whether it is composed into the node's next dispatch where no turn took it.
    pub persist: bool,
}

/// The op one note is submitted as, naming both axes explicitly.
pub fn deliver_with(node: &str, note: &Note, deliver: Deliver, persist: bool) -> (r: NoteOp)
    ensures
        r.id@ == node@,
        r.addressee == note.addressee,
        r.text == note.text,
        r.criterion == note.criterion,
        r.deliver == deliver,
        r.persist == persist,
{
    NoteOp {
        id: node.to_owned(),
        addressee: note.addressee,
        text: note.text.clone(),
        criterion: copy_text(&note.criterion),
        deliver,
        persist,
    }
}

/// The op one note is submitted as at the op's own defaults: the running turn is
/// attempted, and the note is carried to the node's next dispatch where there was
/// none.
pub fn deliver(node: &str, note: &Note) -> (r: NoteOp)
    ensures
        r.id@ == node@,
        r.addressee == note.addressee,
        r.text == note.text,
        r.criterion == note.criterion,
        r.deliver == Deliver::Live,
        r.persist,
{
    deliver_with(node, note, Deliver::Live, true)
}

/// Where one note may land: its two axes as a pair, minus the combination that
/// lands nowhere.
#[derive(Debug, Clone, Copy, PartialEq, Eq, Structural)]
pub enum Reach {
    /// The running turn and nothing else.
    LiveOnly,
    /// The running turn, and the node's next dispatch where there was none.
    LiveThenNext,
    /// The node's next dispatch alone.
    NextOnly,
}

/// The refusal a note about delivery gets, naming what left it nowhere to go.
pub open spec fn nobody(node: Seq<char>, why: Seq<char>) -> Seq<char> {
    "note: node '"@ + node + "': "@ + why
}

/// What a note that reaches nobody by construction is told.
pub const NOWHERE: &'static str =
    "`deliver: next` attempts no live delivery and `persist: false` composes it into no dispatch, so this note reaches nobody whatever the run does";

/// The one refusal a note about delivery gets: it would reach nobody, and this
/// names what left it nowhere to go.
pub fn reaches_nobody(node: &str, why: &str) -> (r: Error)
    ensures
        r is Refused,
        r->Refused_0@ == nobody(node@, why@),
{
    let mut out: String = String::from_str("note: node '");
    out.append(node);
    out.append("': ");
    out.append(why);
    Error::Refused(out)
}

impl Reach {
    /// The pair as the envelope carries it, or the one refusal the two fields
    /// decide between them.
    pub fn of(node: &str, deliver: Deliver, persist: bool) -> (r: Result<Self, Error>)
        ensures
            match r {
                Ok(reach) => {
                    &&& deliver == Deliver::Live || persist
                    &&& reach == (if deliver == Deliver::Next {
                        Reach::NextOnly
                    } else if persist {
                        Reach::LiveThenNext
                    } else {
                        Reach::LiveOnly
                    })
                },
                Err(Error::Refused(why)) => deliver == Deliver::Next && !persist && why@ == nobody(
                    node@,
                    NOWHERE@,
                ),
                Err(_) => false,
            },
    {
        match (deliver, persist) {
            (Deliver::Live, false) => Ok(Reach::LiveOnly),
            (Deliver::Live, true) => Ok(Reach::LiveThenNext),
            (Deliver::Next, true) => Ok(Reach::NextOnly),
            (Deliver::Next, false) => Err(reaches_nobody(node, NOWHERE)),
        }
    }

    /// Whether the node's running turn is attempted at all.
    pub fn attempts_a_live_turn(self) -> (r: bool)
        ensures
            r == (self != Reach::NextOnly),
    {
        match self {
            Reach::NextOnly => false,
            _ => true,
        }
    }

    /// Whether a note no running turn took is composed into the node's next
    /// dispatch.
    pub fn composes_forward(self) -> (r: bool)
        ensures
            r == (self != Reach::LiveOnly),
    {
        match self {
            Reach::LiveOnly => false,
            _ => true,
        }
    }
}

/// One note as a dispatch of the node it was for is handed it, and as the run's
/// record names it against that dispatch.
#[derive(Debug, PartialEq, Eq)]
pub struct Consumed {
    /// Whose task it said it was updating.
    pub addressee: Addressee,
    /// What that party read.
    pub text: String,
    /// The criterion it bound, when it bound one.
    pub criterion: Option<String>,
    /// What became of it when it was delivered.
    pub reached: Reached,
}

impl Clone for Consumed {
    fn clone(&self) -> (r: Self)
        ensures
            r == *self,
    {
        Consumed {
            addressee: self.addressee,
            text: self.text.clone(),
            criterion: copy_text(&self.criterion),
            reached: self.reached.clone(),
        }
    }
}

/// The payload key under which a dispatch names the notes it was composed with.
pub const CARRIED_KEY: &'static str = "notes_carried";

/// The payload key under which a dispatch names the notes an earlier dispatch
/// read that this one was not composed with.
pub const SPENT_KEY: &'static str = "notes_spent";

/// Where one standing note sits relative to the node's current dispatch.
#[derive(Debug, Clone, Copy, PartialEq, Eq, Structural)]
pub enum Placement {
    /// Composed into the current dispatch's task.
    ComposedIntoIt,
    /// Delivered since the current dispatch was composed.
    DeliveredSince,
}

/// One standing note and where it sits.
#[derive(Debug, PartialEq, Eq)]
pub struct Held {
    /// The note.
    pub note: Consumed,
    /// Where it sits.
    pub placement: Placement,
}

/// A standing note a conversation of the node's current dispatch has read: one
/// composed into it, or one delivered since that a party took.
pub open spec fn has_been_read(held: Held) -> bool {
    held.placement == Placement::ComposedIntoIt || !(held.note.reached is Carried)
}

impl Held {
    /// Whether a conversation of the node's current dispatch has read this note.
    pub fn read(&self) -> (r: bool)
        ensures
            r == has_been_read(*self),
    {
        match self.placement {
            Placement::ComposedIntoIt => true,
            Placement::DeliveredSince => self.note.reached.a_conversation_read_it(),
        }
    }
}

/// The notes a node's current dispatch holds: what it was composed with, and
/// every note the run delivered to the node since.
#[derive(Debug, PartialEq, Eq)]
pub struct Standing {
    /// Every note, in the order the run recorded them.
    pub held: Vec<Held>,
}

/// The notes of a list of standing notes.
pub open spec fn notes_of(held: Seq<Held>) -> Seq<Consumed> {
    held.map_values(|h: Held| h.note)
}

impl Default for Standing {
    fn default() -> (r: Self)
        ensures
            r.held@ == Seq::<Held>::empty(),
    {
        Standing { held: Vec::new() }
    }
}

impl Standing {
    /// Every note, as the node's next dispatch is composed with all of them.
    pub fn notes(&self) -> (r: Vec<Consumed>)
        ensures
            r@ == notes_of(self.held@),
    {
        let mut out: Vec<Consumed> = Vec::new();
        let mut i: usize = 0;
        while i < self.held.len()
            invariant
                i <= self.held@.len(),
                out@ == notes_of(self.held@).take(i as int),
            decreases self.held@.len() - i,
        {
            out.push(self.held[i].note.clone());
            i += 1;
            assert(out@ =~= notes_of(self.held@).take(i as int));
        }
        assert(out@ =~= notes_of(self.held@));
        out
    }

    /// The notes a conversation of the node's current dispatch has read.
    pub fn read(&self) -> (r: Vec<Consumed>)
        ensures
            r@ == notes_of(self.held@.filter(|h: Held| has_been_read(h))),
    {
        let mut out: Vec<Consumed> = Vec::new();
        let ghost keep = |h: Held| has_been_read(h);
        let mut i: usize = 0;
        proof {
            reveal(Seq::filter);
            assert(out@ =~= notes_of(self.held@.take(0).filter(keep)));
        }
        while i < self.held.len()
            invariant
                i <= self.held@.len(),
                keep == (|h: Held| has_been_read(h)),
                out@ == notes_of(self.held@.take(i as int).filter(keep)),
            decreases self.held@.len() - i,
        {
            let ghost was = out@;
            proof {
                let more = self.held@.take(i + 1);
                assert(more.drop_last() =~= self.held@.take(i as int));
                assert(more.last() == self.held@[i as int]);
                reveal(Seq::filter);
            }
            if self.held[i].read() {
                let note = self.held[i].note.clone();
                out.push(note);
                assert(out@ =~= notes_of(
                    self.held@.take(i as int).filter(keep).push(self.held@[i as int]),
                ));
            }
            i += 1;
        }
        assert(self.held@.take(self.held@.len() as int) =~= self.held@);
        out
    }
}

/// One operation of a committed edit, as far as this fold reads it.
#[derive(Debug, PartialEq, Eq)]
pub enum Operation {
    /// A note was delivered to a node.
    NoteDelivered {
        /// The node.
        node: String,
        /// The note.
        note: Consumed,
    },
    /// Anything else.
    Other,
}

/// A record of the run's journal, as far as this fold reads it: what it is, and
/// what its two note-bearing fields read as, where it carries them.
pub struct NoteRecord {
    /// What kind of event it is.
    pub kind: String,
    /// The stream it belongs to.
    pub stream: String,
    /// Its number within that stream.
    pub seq: u64,
    /// Who wrote it.
    pub source: Source,
    /// The node it is stamped with.
    pub node: Option<String>,
    /// Its `notes_carried`, read or refused.
    pub carried: Option<Result<Vec<Consumed>, String>>,
    /// Its `operations`, read or refused.
    pub operations: Option<Result<Vec<Operation>, String>>,
}

/// What a record that cannot be read as what its kind says it carries is refused
/// with.
pub open spec fn unreadable(record: NoteRecord, field: Seq<char>, why: Seq<char>) -> Seq<char> {
    "the run's record of the notes delivered to its nodes cannot be read: `"@ + record.kind@
        + "` record "@ + record.stream@ + "/"@ + dec(record.seq as nat) + " carries a `"@ + field
        + "` this build cannot read ("@ + why
        + "), so which notes a dispatch is composed with cannot be decided from it"@
}

/// The notes of a list, each in one place.
pub open spec fn placed_at(notes: Seq<Consumed>, placement: Placement) -> Seq<Held> {
    notes.map_values(|note: Consumed| Held { note, placement })
}

/// The notes a list of operations delivered to one node, in order.
pub open spec fn delivered_to(operations: Seq<Operation>, node: Seq<char>) -> Seq<Held>
    decreases operations.len(),
{
    if operations.len() == 0 {
        Seq::empty()
    } else {
        let before = delivered_to(operations.drop_last(), node);
        match operations.last() {
            Operation::NoteDelivered { node: whose, note } if whose@ == node => before.push(
                Held { note, placement: Placement::DeliveredSince },
            ),
            _ => before,
        }
    }
}

/// What one record makes of the notes that stood before it: a dispatch of the
/// node resets them to what it was composed with, and a committed edit adds the
/// notes it delivered to the node. Both are this engine's own records; another
/// producer's is passed over, whatever its kind.
pub open spec fn stands_after(
    held: Seq<Held>,
    record: NoteRecord,
    node: Seq<char>,
) -> Result<Seq<Held>, Seq<char>> {
    if record.source != Source::Pipeline {
        Ok(held)
    } else if record.kind@ == PipelineKind::NodeDispatched.word() {
        if text_of(record.node) != Some(node) {
            Ok(held)
        } else {
            match record.carried {
                None => Ok(Seq::empty()),
                Some(Ok(notes)) => Ok(placed_at(notes@, Placement::ComposedIntoIt)),
                Some(Err(why)) => Err(unreadable(record, CARRIED_KEY@, why@)),
            }
        }
    } else if record.kind@ == PipelineKind::EditCommitted.word() || record.kind@
        == PipelineKind::CommandAccepted.word() {
        match record.operations {
            None => Ok(held),
            Some(Ok(operations)) => Ok(held + delivered_to(operations@, node)),
            Some(Err(why)) => Err(unreadable(record, "operations"@, why@)),
        }
    } else {
        Ok(held)
    }
}

/// What stands for a node after a journal, or the first record that could not be
/// read.
pub open spec fn stands(journal: Seq<NoteRecord>, node: Seq<char>) -> Result<Seq<Held>, Seq<char>>
    decreases journal.len(),
{
    if journal.len() == 0 {
        Ok(Seq::empty())
    } else {
        match stands(journal.drop_last(), node) {
            Err(why) => Err(why),
            Ok(held) => stands_after(held, journal.last(), node),
        }
    }
}

fn unreadable_record(record: &NoteRecord, field: &str, why: &str) -> (r: Error)
    ensures
        r is Invalid,
        r->Invalid_0@ == unreadable(*record, field@, why@),
{
    let mut out: String = String::from_str(
        "the run's record of the notes delivered to its nodes cannot be read: `",
    );
    out.append(record.kind.as_str());
    out.append("` record ");
    out.append(record.stream.as_str());
    out.append("/");
    text::push_dec(&mut out, record.seq);
    out.append(" carries a `");
    out.append(field);
    out.append("` this build cannot read (");
    out.append(why);
    out.append("), so which notes a dispatch is composed with cannot be decided from it");
    Error::Invalid(out)
}

fn place_all(notes: &Vec<Consumed>) -> (r: Vec<Held>)
    ensures
        r@ == placed_at(notes@, Placement::ComposedIntoIt),
{
    let mut out: Vec<Held> = Vec::new();
    let mut i: usize = 0;
    while i < notes.len()
        invariant
            i <= notes@.len(),
            out@ == placed_at(notes@, Placement::ComposedIntoIt).take(i as int),
        decreases notes@.len() - i,
    {
        out.push(Held { note: notes[i].clone(), placement: Placement::ComposedIntoIt });
        i += 1;
        assert(out@ =~= placed_at(notes@, Placement::ComposedIntoIt).take(i as int));
    }
    assert(out@ =~= placed_at(notes@, Placement::ComposedIntoIt));
    out
}

fn add_delivered(held: &mut Vec<Held>, operations: &Vec<Operation>, node: &str)
    ensures
        final(held)@ == old(held)@ + delivered_to(operations@, node@),
{
    let ghost before = held@;
    let mut i: usize = 0;
    assert(held@ =~= before + delivered_to(operations@.take(0), node@));
    while i < operations.len()
        invariant
            i <= operations@.len(),
            held@ == before + delivered_to(operations@.take(i as int), node@),
        decreases operations@.len() - i,
    {
        proof {
            assert(operations@.take(i + 1).drop_last() =~= operations@.take(i as int));
            assert(operations@.take(i + 1).last() == operations@[i as int]);
        }
        match &operations[i] {
            Operation::NoteDelivered { node: whose, note } => {
                if text::same(whose.as_str(), node) {
                    held.push(
                        Held { note: note.clone(), placement: Placement::DeliveredSince },
                    );
                }
            },
            Operation::Other => {},
        }
        i += 1;
        assert(held@ =~= before + delivered_to(operations@.take(i as int), node@));
    }
    assert(operations@.take(operations@.len() as int) =~= operations@);
}

/// Fold what stands for a node out of the run's journal.
///
/// A record of this engine's own that cannot be read as what it says it carries
/// is refused rather than read past: a dispatch composed without the notes it
/// cannot read is the silent loss this fold exists to end.
pub fn standing(journal: &Vec<NoteRecord>, node: &str) -> (r: Result<Standing, Error>)
    ensures
        match r {
            Ok(standing) => stands(journal@, node@) == Ok::<Seq<Held>, Seq<char>>(standing.held@),
            Err(Error::Invalid(why)) => stands(journal@, node@) == Err::<Seq<Held>, Seq<char>>(
                why@,
            ),
            Err(_) => false,
        },
{
    let mut held: Vec<Held> = Vec::new();
    let mut i: usize = 0;
    while i < journal.len()
        invariant
            i <= journal@.len(),
            stands(journal@.take(i as int), node@) == Ok::<Seq<Held>, Seq<char>>(held@),
        decreases journal@.len() - i,
    {
        let record = &journal[i];
        proof {
            assert(journal@.take(i + 1).drop_last() =~= journal@.take(i as int));
            assert(journal@.take(i + 1).last() == *record);
        }
        let ours: bool = record.source == Source::Pipeline;
        if ours && text::same(record.kind.as_str(), PipelineKind::NodeDispatched.as_str()) {
            if text::is_text(&record.node, node) {
                match &record.carried {
                    None => {
                        held = Vec::new();
                    },
                    Some(Ok(notes)) => {
                        held = place_all(notes);
                    },
                    Some(Err(why)) => {
                        proof {
                            lemma_refused(journal@, node@, i + 1);
                        }
                        return Err(unreadable_record(record, CARRIED_KEY, why.as_str()));
                    },
                }
            }
        } else {
            let commit: bool = text::same(
                record.kind.as_str(),
                PipelineKind::EditCommitted.as_str(),
            ) || text::same(record.kind.as_str(), PipelineKind::CommandAccepted.as_str());
            if ours && commit {
                match &record.operations {
                    None => {},
                    Some(Ok(operations)) => {
                        add_delivered(&mut held, operations, node);
                    },
                    Some(Err(why)) => {
                        proof {
                            lemma_refused(journal@, node@, i + 1);
                        }
                        return Err(unreadable_record(record, "operations", why.as_str()));
                    },
                }
            }
        }
        i += 1;
    }
    assert(journal@.take(journal@.len() as int) =~= journal@);
    Ok(Standing { held })
}

/// A record that is refused refuses the whole journal, whatever follows it.
proof fn lemma_refused(journal: Seq<NoteRecord>, node: Seq<char>, n: int)
    requires
        0 <= n <= journal.len(),
        stands(journal.take(n), node) is Err,
    ensures
        stands(journal, node) == stands(journal.take(n), node),
    decreases journal.len(),
{
    if n < journal.len() {
        let rest = journal.drop_last();
        assert(rest.take(n) =~= journal.take(n));
        lemma_refused(rest, node, n);
    } else {
        assert(journal.take(n) =~= journal);
    }
}

/// What an earlier dispatch of a node read is spent by its next one: only what
/// that dispatch was composed with, and what came after it, stands.
pub proof fn law_a_dispatch_resets_what_stands(
    journal: Seq<NoteRecord>,
    dispatch: NoteRecord,
    node: Seq<char>,
)
    requires
        stands(journal, node) is Ok,
        dispatch.source == Source::Pipeline,
        dispatch.kind@ == PipelineKind::NodeDispatched.word(),
        text_of(dispatch.node) == Some(node),
        dispatch.carried is None || dispatch.carried->0 is Ok,
    ensures
        stands(journal.push(dispatch), node) == Ok::<Seq<Held>, Seq<char>>(
            match dispatch.carried {
                Some(Ok(notes)) => placed_at(notes@, Placement::ComposedIntoIt),
                _ => Seq::empty(),
            },
        ),
{
    assert(journal.push(dispatch).drop_last() =~= journal);
}

/// A dispatch of another node, and a record of another producer's whatever its
/// kind, leave what stands for a node as it was.
pub proof fn law_what_is_not_the_nodes_changes_nothing(
    journal: Seq<NoteRecord>,
    record: NoteRecord,
    node: Seq<char>,
)
    requires
        record.source != Source::Pipeline || record.kind@ == PipelineKind::NodeDispatched.word()
            && text_of(record.node) != Some(node),
    ensures
        stands(journal.push(record), node) == stands(journal, node),
{
    assert(journal.push(record).drop_last() =~= journal);
}

/// This engine's own record that a node was dispatched.
pub open spec fn dispatches(record: NoteRecord, node: Seq<char>) -> bool {
    &&& record.source == Source::Pipeline
    &&& record.kind@ == PipelineKind::NodeDispatched.word()
    &&& text_of(record.node) == Some(node)
}

/// The notes a journal's committed edits delivered to one node, in order.
pub open spec fn delivered_since(journal: Seq<NoteRecord>, node: Seq<char>) -> Seq<Held>
    decreases journal.len(),
{
    if journal.len() == 0 {
        Seq::empty()
    } else {
        let before = delivered_since(journal.drop_last(), node);
        let record = journal.last();
        if record.source == Source::Pipeline && (record.kind@
            == PipelineKind::EditCommitted.word() || record.kind@
            == PipelineKind::CommandAccepted.word()) {
            match record.operations {
                Some(Ok(operations)) => before + delivered_to(operations@, node),
                _ => before,
            }
        } else {
            before
        }
    }
}

/// A dispatch is not a committed edit.
proof fn lemma_a_dispatch_commits_nothing()
    ensures
        PipelineKind::NodeDispatched.word() != PipelineKind::EditCommitted.word(),
        PipelineKind::NodeDispatched.word() != PipelineKind::CommandAccepted.word(),
{
    reveal_strlit("node-dispatched");
    reveal_strlit("edit-committed");
    reveal_strlit("command-accepted");
    assert("node-dispatched"@[0] != "edit-committed"@[0]);
    assert("node-dispatched"@[0] != "command-accepted"@[0]);
}

/// What stands for a node starts at its last dispatch and reads forward: what
/// that dispatch was composed with, and then every note committed to the node
/// since, whatever came before it.
pub proof fn law_what_stands_starts_at_the_last_dispatch(
    before: Seq<NoteRecord>,
    dispatch: NoteRecord,
    after: Seq<NoteRecord>,
    node: Seq<char>,
)
    requires
        dispatches(dispatch, node),
        forall|i: int| 0 <= i < after.len() ==> !dispatches(#[trigger] after[i], node),
        stands(before.push(dispatch) + after, node) is Ok,
    ensures
        stands(before.push(dispatch) + after, node) == Ok::<Seq<Held>, Seq<char>>(
            (match dispatch.carried {
                Some(Ok(notes)) => placed_at(notes@, Placement::ComposedIntoIt),
                _ => Seq::empty(),
            }) + delivered_since(after, node),
        ),
    decreases after.len(),
{
    let journal = before.push(dispatch) + after;
    if after.len() == 0 {
        assert(journal.drop_last() =~= before);
        assert(journal.last() == dispatch);
        assert(stands(journal, node)->Ok_0 =~= (match dispatch.carried {
            Some(Ok(notes)) => placed_at(notes@, Placement::ComposedIntoIt),
            _ => Seq::empty(),
        }) + delivered_since(after, node));
    } else {
        let rest = after.drop_last();
        lemma_a_dispatch_commits_nothing();
        assert(journal.drop_last() =~= before.push(dispatch) + rest);
        assert(journal.last() == after.last());
        assert(!dispatches(after[after.len() - 1], node));
        assert forall|i: int| 0 <= i < rest.len() implies !dispatches(
            #[trigger] rest[i],
            node,
        ) by {
            assert(rest[i] == after[i]);
        }
        law_what_stands_starts_at_the_last_dispatch(before, dispatch, rest, node);
        assert(stands(journal, node)->Ok_0 =~= (match dispatch.carried {
            Some(Ok(notes)) => placed_at(notes@, Placement::ComposedIntoIt),
            _ => Seq::empty(),
        }) + delivered_since(after, node));
    }
}

/// A node that was never dispatched has every note committed to it standing.
pub proof fn law_before_a_dispatch_every_note_stands(journal: Seq<NoteRecord>, node: Seq<char>)
    requires
        forall|i: int| 0 <= i < journal.len() ==> !dispatches(#[trigger] journal[i], node),
        stands(journal, node) is Ok,
    ensures
        stands(journal, node) == Ok::<Seq<Held>, Seq<char>>(delivered_since(journal, node)),
    decreases journal.len(),
{
    if journal.len() > 0 {
        let rest = journal.drop_last();
        lemma_a_dispatch_commits_nothing();
        assert(!dispatches(journal[journal.len() - 1], node));
        assert forall|i: int| 0 <= i < rest.len() implies !dispatches(
            #[trigger] rest[i],
            node,
        ) by {
            assert(rest[i] == journal[i]);
        }
        law_before_a_dispatch_every_note_stands(rest, node);
    }
}

/// Which parties are still owed a presentation.
#[derive(Debug, Clone, Copy, PartialEq, Eq, Structural)]
pub struct Owed {
    /// The worker is.
    pub worker: bool,
    /// The supervisor is.
    pub supervisor: bool,
}

impl Owed {
    /// Somebody is owed.
    pub open spec fn any(self) -> bool {
        self.worker || self.supervisor
    }

    /// This party is owed.
    pub open spec fn to(self, party: Party) -> bool {
        match party {
            Party::Worker => self.worker,
            Party::Supervisor => self.supervisor,
        }
    }

    /// What is owed once this party has been shown the note.
    pub open spec fn without(self, party: Party) -> Owed {
        match party {
            Party::Worker => Owed { worker: false, ..self },
            Party::Supervisor => Owed { supervisor: false, ..self },
        }
    }

    fn owes(self, party: Party) -> (r: bool)
        ensures
            r == self.to(party),
    {
        match party {
            Party::Worker => self.worker,
            Party::Supervisor => self.supervisor,
        }
    }

    fn paid(self, party: Party) -> (r: Owed)
        ensures
            r == self.without(party),
    {
        match party {
            Party::Worker => Owed { worker: false, supervisor: self.supervisor },
            Party::Supervisor => Owed { worker: self.worker, supervisor: false },
        }
    }
}

/// One note a conversation has been told to present, and to whom it has not yet
/// been shown.
#[derive(Debug, PartialEq, Eq)]
pub struct Routed {
    /// The note.
    pub note: Consumed,
    /// The parties still owed a presentation.
    pub awaiting: Owed,
    /// Whether the worker has to be shown it before the supervisor can be.
    pub worker_first: bool,
    /// Whether only a worker turn the producer stamps as delivered counts.
    pub delivered_turn_only: bool,
    /// When this routing was recorded.
    pub routed_at: u64,
    /// The worker turn that presented it, once one has.
    pub worker_turn: Option<u64>,
}

/// One presentation the stream showed happening.
#[derive(Debug, PartialEq, Eq)]
pub struct Shown {
    /// Who was shown the note.
    pub party: Party,
    /// The turn of theirs that opened carrying it.
    pub turn: u64,
    /// The note.
    pub note: Consumed,
}

/// One turn of a conversation, as the stream shows it opening.
#[derive(Debug, Clone, Copy, PartialEq, Eq, Structural)]
pub struct Turn {
    /// Whose turn it is.
    pub party: Party,
    /// Which one it is.
    pub number: u64,
    /// When it opened.
    pub opened_at: u64,
    /// Whether the producer stamps it as opened on a delivered note.
    pub delivered: bool,
}

/// A turn that presents a routed note: no earlier than the routing, to a party
/// still owed it, and in the producer's own order.
pub open spec fn presents(routed: Routed, turn: Turn) -> bool {
    &&& turn.opened_at >= routed.routed_at
    &&& routed.awaiting.to(turn.party)
    &&& match turn.party {
        Party::Worker => turn.delivered || !routed.delivered_turn_only,
        Party::Supervisor => match routed.worker_turn {
            Some(worker_turn) => turn.number >= worker_turn,
            None => !routed.worker_first || !routed.awaiting.worker,
        },
    }
}

/// A routed note after a turn that presented it.
pub open spec fn presented(routed: Routed, turn: Turn) -> Routed {
    Routed {
        awaiting: routed.awaiting.without(turn.party),
        worker_turn: if turn.party == Party::Worker {
            Some(turn.number)
        } else {
            routed.worker_turn
        },
        ..routed
    }
}

/// The presentations one turn shows happening, in the order the notes were
/// routed.
pub open spec fn shown_by(routed: Seq<Routed>, turn: Turn) -> Seq<Shown>
    decreases routed.len(),
{
    if routed.len() == 0 {
        Seq::empty()
    } else {
        let before = shown_by(routed.drop_last(), turn);
        if presents(routed.last(), turn) {
            before.push(
                Shown { party: turn.party, turn: turn.number, note: routed.last().note },
            )
        } else {
            before
        }
    }
}

/// What is still owed after one turn: a note owed to nobody is no longer watched.
pub open spec fn still_routed(routed: Seq<Routed>, turn: Turn) -> Seq<Routed>
    decreases routed.len(),
{
    if routed.len() == 0 {
        Seq::empty()
    } else {
        let before = still_routed(routed.drop_last(), turn);
        let last = routed.last();
        let after = if presents(last, turn) {
            presented(last, turn)
        } else {
            last
        };
        if after.awaiting.any() {
            before.push(after)
        } else {
            before
        }
    }
}

/// The turn an envelope shows opening, where it shows one this crate reads: the
/// producer's own `turn-started`, naming a role, a turn and an instant.
pub open spec fn turn_of(envelope: Envelope, opened_at: Option<u64>) -> Option<Turn> {
    let role = text_in(field_in(envelope.payload@, "role"@));
    let number = count_in(field_in(envelope.payload@, "turn"@));
    if envelope.source != Source::Agentgraph || envelope.kind.0@ != event_word(
        GraphEvent::TurnStarted,
    ) || role is None || number is None || opened_at is None {
        None
    } else if role == Some(role_word(Role::Assistant)) || role == Some(role_word(Role::User)) {
        Some(
            Turn {
                party: if role == Some(role_word(Role::Assistant)) {
                    Party::Worker
                } else {
                    Party::Supervisor
                },
                number: number->0,
                opened_at: opened_at->0,
                delivered: text_in(field_in(envelope.payload@, "origin"@)) == Some("delivered"@),
            },
        )
    } else {
        None
    }
}

fn read_turn(envelope: &Envelope, opened_at: Option<u64>) -> (r: Option<Turn>)
    ensures
        r == turn_of(*envelope, opened_at),
{
    if envelope.source != Source::Agentgraph || !text::same(
        envelope.kind.0.as_str(),
        agentgraph::event_kind(GraphEvent::TurnStarted),
    ) {
        return None;
    }
    let role = match json::text_field(&envelope.payload, "role") {
        Some(role) => role,
        None => {
            return None;
        },
    };
    let number: u64 = match json::count_field(&envelope.payload, "turn") {
        Some(number) => number,
        None => {
            return None;
        },
    };
    let opened_at: u64 = match opened_at {
        Some(at) => at,
        None => {
            return None;
        },
    };
    let delivered: bool = match json::text_field(&envelope.payload, "origin") {
        Some(origin) => text::same(origin.as_str(), agentgraph::delivered_origin()),
        None => false,
    };
    let party = if text::same(role.as_str(), agentgraph::role_name(Role::Assistant)) {
        Party::Worker
    } else if text::same(role.as_str(), agentgraph::role_name(Role::User)) {
        Party::Supervisor
    } else {
        return None;
    };
    Some(Turn { party, number, opened_at, delivered })
}

/// What one dispatch's conversation has been told to present and has not yet been
/// seen presenting.
///
/// A presentation is recorded when the stream shows it and never when it is
/// merely intended: a dispatch that ends between the two drops this with it, and
/// the record keeps only the presentations that happened.
pub struct Presentations {
    /// The notes still owed to somebody, in the order they were routed.
    pub routed: Vec<Routed>,
}

impl Default for Presentations {
    fn default() -> (r: Self)
        ensures
            r.routed@ == Seq::<Routed>::empty(),
            r.wf(),
    {
        Presentations { routed: Vec::new() }
    }
}

/// How a note a conversation routed onward is watched.
pub open spec fn watched(note: Consumed, at: u64) -> Routed {
    Routed {
        note,
        awaiting: Owed {
            worker: note.reached.routed().contains(Party::Worker),
            supervisor: note.reached.routed().contains(Party::Supervisor),
        },
        worker_first: !(note.reached is Queued),
        delivered_turn_only: true,
        routed_at: at,
        worker_turn: None,
    }
}

/// How a note composed into the dispatch's own task is watched.
pub open spec fn watched_in_task(note: Consumed, at: u64) -> Routed {
    Routed {
        note,
        awaiting: Owed { worker: true, supervisor: true },
        worker_first: true,
        delivered_turn_only: false,
        routed_at: at,
        worker_turn: None,
    }
}

impl Presentations {
    /// Every note watched is owed to somebody.
    pub open spec fn wf(&self) -> bool {
        forall|i: int| 0 <= i < self.routed@.len() ==> (#[trigger] self.routed@[i]).awaiting.any()
    }

    /// A note a conversation acknowledged and routed onward. One it routes nowhere
    /// is not watched at all.
    pub fn routed_by_the_conversation(&mut self, note: Consumed, at: u64)
        ensures
            final(self).routed@ == (if note.reached.routed().len() == 0 {
                old(self).routed@
            } else {
                old(self).routed@.push(watched(note, at))
            }),
            old(self).wf() ==> final(self).wf(),
    {
        let awaiting: Owed = match &note.reached {
            Reached::Worker | Reached::Queued => Owed { worker: true, supervisor: true },
            Reached::Supervisor => Owed { worker: true, supervisor: false },
            Reached::JudgedWith { .. } | Reached::Carried => {
                return;
            },
        };
        let worker_first: bool = match &note.reached {
            Reached::Queued => false,
            _ => true,
        };
        proof {
            let routed = note.reached.routed();
            assert(routed[0] == Party::Worker);
            if routed.len() == 2 {
                assert(routed[1] == Party::Supervisor);
            } else {
                assert(!routed.contains(Party::Supervisor));
            }
        }
        self.routed.push(
            Routed {
                note,
                awaiting,
                worker_first,
                delivered_turn_only: true,
                routed_at: at,
                worker_turn: None,
            },
        );
    }

    /// A note composed into the dispatch's own task, which its opening worker turn
    /// carries and every supervisor turn after that reads.
    pub fn composed_into_the_task(&mut self, note: Consumed, at: u64)
        ensures
            final(self).routed@ == old(self).routed@.push(watched_in_task(note, at)),
            old(self).wf() ==> final(self).wf(),
    {
        self.routed.push(
            Routed {
                note,
                awaiting: Owed { worker: true, supervisor: true },
                worker_first: true,
                delivered_turn_only: false,
                routed_at: at,
                worker_turn: None,
            },
        );
    }

    /// Read one relayed envelope of the conversation, which opened at the instant
    /// its timestamp names, and answer every presentation it shows happening.
    pub fn observe(&mut self, envelope: &Envelope, opened_at: Option<u64>) -> (r: Vec<Shown>)
        requires
            old(self).wf(),
        ensures
            final(self).wf(),
            match turn_of(*envelope, opened_at) {
                None => r@ == Seq::<Shown>::empty() && final(self).routed@ == old(self).routed@,
                Some(turn) => {
                    &&& r@ == shown_by(old(self).routed@, turn)
                    &&& final(self).routed@ == still_routed(old(self).routed@, turn)
                },
            },
    {
        let mut shown: Vec<Shown> = Vec::new();
        let turn: Turn = match read_turn(envelope, opened_at) {
            Some(turn) => turn,
            None => {
                return shown;
            },
        };
        let ghost all = self.routed@;
        let mut rest: Vec<Routed> = Vec::new();
        let mut i: usize = 0;
        while i < self.routed.len()
            invariant
                i <= all.len(),
                self.routed@ == all,
                shown@ == shown_by(all.take(i as int), turn),
                rest@ == still_routed(all.take(i as int), turn),
                forall|j: int| 0 <= j < rest@.len() ==> (#[trigger] rest@[j]).awaiting.any(),
            decreases all.len() - i,
        {
            let routed = &self.routed[i];
            proof {
                assert(all.take(i + 1).drop_last() =~= all.take(i as int));
                assert(all.take(i + 1).last() == *routed);
            }
            let owed: bool = turn.opened_at >= routed.routed_at && routed.awaiting.owes(
                turn.party,
            );
            let in_order: bool = match turn.party {
                Party::Worker => turn.delivered || !routed.delivered_turn_only,
                Party::Supervisor => match routed.worker_turn {
                    Some(worker_turn) => turn.number >= worker_turn,
                    None => !routed.worker_first || !routed.awaiting.worker,
                },
            };
            let presents: bool = owed && in_order;
            let mut awaiting: Owed = routed.awaiting;
            let mut worker_turn: Option<u64> = routed.worker_turn;
            if presents {
                awaiting = awaiting.paid(turn.party);
                if turn.party == Party::Worker {
                    worker_turn = Some(turn.number);
                }
                shown.push(
                    Shown { party: turn.party, turn: turn.number, note: routed.note.clone() },
                );
            }
            if awaiting.worker || awaiting.supervisor {
                rest.push(
                    Routed {
                        note: routed.note.clone(),
                        awaiting,
                        worker_first: routed.worker_first,
                        delivered_turn_only: routed.delivered_turn_only,
                        routed_at: routed.routed_at,
                        worker_turn,
                    },
                );
            }
            i += 1;
        }
        assert(all.take(all.len() as int) =~= all);
        self.routed = rest;
        shown
    }
}

/// Every presentation a turn shows was owed: its note was routed no later than
/// the turn opened, to the party whose turn it is.
pub proof fn law_only_what_was_owed_is_shown(routed: Seq<Routed>, turn: Turn, k: int)
    requires
        0 <= k < shown_by(routed, turn).len(),
    ensures
        exists|i: int|
            0 <= i < routed.len() && presents(#[trigger] routed[i], turn) && shown_by(
                routed,
                turn,
            )[k].note == routed[i].note,
    decreases routed.len(),
{
    let before = shown_by(routed.drop_last(), turn);
    if k < before.len() {
        law_only_what_was_owed_is_shown(routed.drop_last(), turn, k);
        let i = choose|i: int|
            0 <= i < routed.drop_last().len() && presents(#[trigger] routed.drop_last()[i], turn)
                && before[k].note == routed.drop_last()[i].note;
        assert(routed[i] == routed.drop_last()[i]);
    } else {
        assert(presents(routed[routed.len() - 1], turn));
    }
}

/// A presentation is confirmed once: after a turn that presented a note to a
/// party, no turn of that party's presents it again.
pub proof fn law_a_presentation_is_confirmed_once(routed: Routed, turn: Turn, later: Turn)
    requires
        presents(routed, turn),
        later.party == turn.party,
    ensures
        !presents(presented(routed, turn), later),
{
}

/// A note that rides a reopened worker turn is never shown to the supervisor
/// ahead of the worker: a turn of the supervisor's presents it only once a turn
/// of the worker's has, and not one numbered before it.
pub proof fn law_the_worker_is_shown_first(note: Consumed, at: u64, turn: Turn)
    requires
        note.reached is Worker,
        turn.party == Party::Supervisor,
    ensures
        !presents(watched(note, at), turn),
        forall|worker: Turn|
            worker.party == Party::Worker && #[trigger] presents(watched(note, at), worker)
                && worker.number > turn.number ==> !presents(
                presented(watched(note, at), worker),
                turn,
            ),
{
    assert(note.reached.routed()[0] == Party::Worker);
}

impl Addressee {
    /// The word an addressee is written as.
    pub open spec fn word(self) -> Seq<char> {
        match self {
            Addressee::Worker => "worker"@,
            Addressee::Supervisor => "supervisor"@,
            Addressee::Both => "both"@,
        }
    }

    /// The word this addressee is written as.
    pub fn as_str(self) -> (r: &'static str)
        ensures
            r@ == self.word(),
    {
        match self {
            Addressee::Worker => "worker",
            Addressee::Supervisor => "supervisor",
            Addressee::Both => "both",
        }
    }
}

impl Party {
    /// The word a party is written as.
    pub open spec fn word(self) -> Seq<char> {
        match self {
            Party::Worker => "worker"@,
            Party::Supervisor => "supervisor"@,
        }
    }

    /// The word this party is written as.
    pub fn as_str(self) -> (r: &'static str)
        ensures
            r@ == self.word(),
    {
        match self {
            Party::Worker => "worker",
            Party::Supervisor => "supervisor",
        }
    }
}

/// What a note is written as: the criterion only where it bound one, and the
/// judge's reason only where the judge completed with the note in hand.
pub open spec fn note_fields(note: Consumed) -> Seq<(Seq<char>, Seq<char>)> {
    let opening = seq![("addressee"@, note.addressee.word()), ("text"@, note.text@)];
    let bound = match note.criterion {
        Some(criterion) => opening.push(("criterion"@, criterion@)),
        None => opening,
    };
    let reached = bound.push(("reached"@, note.reached.word()));
    match note.reached {
        Reached::JudgedWith { completion_reason } => reached.push(
            ("completion_reason"@, completion_reason@),
        ),
        _ => reached,
    }
}

impl Consumed {
    /// The fields this note is written as.
    pub fn fields(&self) -> (r: Vec<(String, Json)>)
        ensures
            json::all_texts(r@, note_fields(*self)),
    {
        let mut fields: Vec<(String, Json)> = Vec::new();
        let ghost none = Seq::<(Seq<char>, Seq<char>)>::empty();
        assert(json::all_texts(fields@, none));
        json::push_text(&mut fields, "addressee", self.addressee.as_str());
        json::push_text(&mut fields, "text", self.text.as_str());
        assert(none.push(("addressee"@, self.addressee.word())).push(("text"@, self.text@)) =~= seq![
            ("addressee"@, self.addressee.word()),
            ("text"@, self.text@),
        ]);
        if let Some(criterion) = &self.criterion {
            json::push_text(&mut fields, "criterion", criterion.as_str());
        }
        json::push_text(&mut fields, "reached", self.reached.as_str());
        if let Reached::JudgedWith { completion_reason } = &self.reached {
            json::push_text(&mut fields, "completion_reason", completion_reason.as_str());
        }
        fields
    }
}

/// The value a dispatch's record carries a list of notes as: one object to each,
/// in order.
pub fn payload_of(notes: &Vec<Consumed>) -> (r: Vec<Json>)
    ensures
        r@.len() == notes@.len(),
        forall|i: int|
            0 <= i < r@.len() ==> (#[trigger] r@[i]) is Object && json::all_texts(
                r@[i]->Object_0@,
                note_fields(notes@[i]),
            ),
{
    let mut out: Vec<Json> = Vec::new();
    let mut i: usize = 0;
    while i < notes.len()
        invariant
            i <= notes@.len(),
            out@.len() == i,
            forall|j: int|
                0 <= j < out@.len() ==> (#[trigger] out@[j]) is Object && json::all_texts(
                    out@[j]->Object_0@,
                    note_fields(notes@[j]),
                ),
        decreases notes@.len() - i,
    {
        out.push(Json::Object(notes[i].fields()));
        i += 1;
    }
    out
}

impl Shown {
    /// The payload a presentation is recorded with: the note, who was shown it,
    /// and the turn of theirs that carried it.
    pub fn payload(&self) -> (r: Vec<(String, Json)>)
        ensures
            r@.len() == note_fields(self.note).len() + 2,
            json::all_texts(
                r@.drop_last(),
                note_fields(self.note).push(("party"@, self.party.word())),
            ),
            r@.last().0@ == "turn"@,
            r@.last().1 == Json::Count(self.turn),
    {
        let mut fields = self.note.fields();
        json::push_text(&mut fields, "party", self.party.as_str());
        let ghost written = fields@;
        fields.push(("turn".to_owned(), Json::Count(self.turn)));
        assert(fields@.drop_last() =~= written);
        fields
    }
}

/// The words notes are recorded in.
pub proof fn law_the_words_of_a_note(reached: Reached)
    ensures
        Addressee::Worker.word() == "worker"@,
        Addressee::Supervisor.word() == "supervisor"@,
        Addressee::Both.word() == "both"@,
        Party::Worker.word() == "worker"@,
        Party::Supervisor.word() == "supervisor"@,
        reached is Queued ==> reached.word() == "queued"@,
        reached is Worker ==> reached.word() == "worker"@,
        reached is Supervisor ==> reached.word() == "supervisor"@,
        reached is JudgedWith ==> reached.word() == "judged-with"@,
        reached is Carried ==> reached.word() == "carried"@,
        CARRIED_KEY@ == "notes_carried"@,
        SPENT_KEY@ == "notes_spent"@,
{
    reveal_strlit("notes_carried");
    reveal_strlit("notes_spent");
}

/// What a conversation acknowledged is recorded as it was: a queued note as queued, an
/// interrupted party as that party, and a judgement with the judge's own reason.
pub proof fn law_what_was_acknowledged_is_recorded(accepted: Accepted)
    ensures
        accepted is Queued ==> Reached::recorded(accepted) is Queued,
        accepted matches Accepted::Interrupted { party } ==> (party == Party::Worker
            ==> Reached::recorded(accepted) is Worker) && (party == Party::Supervisor
            ==> Reached::recorded(accepted) is Supervisor),
        accepted matches Accepted::JudgedWith { completion_reason } ==> Reached::recorded(accepted)
            == (Reached::JudgedWith { completion_reason }),
        !(Reached::recorded(accepted) is Carried),
{
}

/// Who has been shown a note when it is acknowledged, and who is still to be. A judge that
/// took it in hand has been shown it. A note that waits for a turn, or rides the worker's,
/// is still to be shown to both; one the judge re-took goes on to the worker; and one the
/// judge completed with, or no turn took, goes nowhere.
pub proof fn law_who_is_shown_a_note(reached: Reached, party: Party)
    ensures
        reached.confirmed().contains(party) <==> party == Party::Supervisor && (
        reached is Supervisor || reached is JudgedWith),
        reached.routed().contains(party) <==> reached is Queued || reached is Worker || (
        reached is Supervisor && party == Party::Worker),
{
    match reached {
        Reached::Supervisor => {
            assert(reached.confirmed()[0] == Party::Supervisor);
            assert(reached.routed()[0] == Party::Worker);
        },
        Reached::JudgedWith { completion_reason } => {
            assert(reached.confirmed()[0] == Party::Supervisor);
        },
        Reached::Worker => {
            assert(reached.routed()[0] == Party::Worker);
            assert(reached.routed()[1] == Party::Supervisor);
        },
        Reached::Queued => {
            assert(reached.routed()[0] == Party::Worker);
            assert(reached.routed()[1] == Party::Supervisor);
        },
        Reached::Carried => {},
    }
}

/// A standing note has been read where the current dispatch was composed with it, or where
/// it came since and some turn took it; only one that came since and was carried has not.
pub proof fn law_which_standing_notes_have_been_read(held: Held)
    ensures
        !has_been_read(held) <==> held.placement == Placement::DeliveredSince
            && held.note.reached is Carried,
{
}

/// What each record makes of what stands for a node, by the words the journal writes them
/// in. Another producer's record changes nothing. A dispatch of the node leaves what it
/// was composed with; one of another node changes nothing. A committed edit, and an
/// accepted command, add what they delivered to the node. No other record changes
/// anything.
pub proof fn law_what_each_record_makes_of_what_stands(
    held: Seq<Held>,
    record: NoteRecord,
    node: Seq<char>,
)
    ensures
        ({
            let after = stands_after(held, record, node);
            let own = record.source == Source::Pipeline;
            let dispatched = own && record.kind@ == "node-dispatched"@;
            let committed = own && (record.kind@ == "edit-committed"@ || record.kind@
                == "command-accepted"@);
            &&& !dispatched && !committed ==> after == Ok::<Seq<Held>, Seq<char>>(held)
            &&& dispatched && (record.node is None || record.node->0@ != node) ==> after == Ok::<
                Seq<Held>,
                Seq<char>,
            >(held)
            &&& dispatched && record.node is Some && record.node->0@ == node ==> {
                &&& record.carried is None ==> after == Ok::<Seq<Held>, Seq<char>>(Seq::empty())
                &&& record.carried matches Some(Ok(notes)) ==> after is Ok && after->Ok_0.len()
                    == notes@.len() && forall|i: int|
                    0 <= i < notes@.len() ==> #[trigger] after->Ok_0[i] == (Held {
                        note: notes@[i],
                        placement: Placement::ComposedIntoIt,
                    })
                &&& record.carried matches Some(Err(_)) ==> after is Err
            }
            &&& committed ==> {
                &&& record.operations is None ==> after == Ok::<Seq<Held>, Seq<char>>(held)
                &&& record.operations matches Some(Ok(operations)) ==> after == Ok::<
                    Seq<Held>,
                    Seq<char>,
                >(held + delivered_to(operations@, node))
                &&& record.operations matches Some(Err(_)) ==> after is Err
            }
        }),
{
    lemma_a_dispatch_commits_nothing();
}

/// What a list of operations delivered to a node is every note of it addressed to that
/// node, in order, as come since.
pub proof fn law_what_was_delivered_to_a_node(operations: Seq<Operation>, node: Seq<char>)
    ensures
        delivered_to(operations, node) == operations.filter(
            |op: Operation| op is NoteDelivered && op->node@ == node,
        ).map_values(
            |op: Operation|
                Held { note: op->note, placement: Placement::DeliveredSince },
        ),
    decreases operations.len(),
{
    reveal(Seq::filter);
    let keep = |op: Operation| op is NoteDelivered && op->node@ == node;
    let as_held = |op: Operation| Held { note: op->note, placement: Placement::DeliveredSince };
    if operations.len() > 0 {
        law_what_was_delivered_to_a_node(operations.drop_last(), node);
        let before = operations.drop_last().filter(keep);
        assert(before.push(operations.last()).map_values(as_held) =~= before.map_values(
            as_held,
        ).push(as_held(operations.last())));
    } else {
        assert(operations.filter(keep).map_values(as_held) =~= Seq::empty());
    }
}

/// Which turns present a routed note. None that opened before it was routed, and none to a
/// party it is not owed to. A turn of the worker's does, where any does or the producer
/// stamps it as opened on a delivered note. A turn of the supervisor's does from the
/// worker's own turn on, once that has presented it; and before that only where the worker
/// need not come first, or is not owed it.
pub proof fn law_which_turns_present_a_note(routed: Routed, turn: Turn)
    ensures
        turn.opened_at < routed.routed_at ==> !presents(routed, turn),
        turn.party == Party::Worker ==> (presents(routed, turn) <==> turn.opened_at
            >= routed.routed_at && routed.awaiting.worker && (routed.delivered_turn_only
            ==> turn.delivered)),
        turn.party == Party::Supervisor ==> (presents(routed, turn) <==> turn.opened_at
            >= routed.routed_at && routed.awaiting.supervisor && (match routed.worker_turn {
            Some(first) => turn.number >= first,
            None => routed.worker_first ==> !routed.awaiting.worker,
        })),
{
}

/// What a presentation leaves: the party it was made to is no longer owed the note, the
/// other is as it was, and a turn of the worker's is remembered.
pub proof fn law_what_a_presentation_leaves(routed: Routed, turn: Turn)
    ensures
        ({
            let after = presented(routed, turn);
            &&& turn.party == Party::Worker ==> !after.awaiting.worker && after.awaiting.supervisor
                == routed.awaiting.supervisor && after.worker_turn == Some(turn.number)
            &&& turn.party == Party::Supervisor ==> !after.awaiting.supervisor
                && after.awaiting.worker == routed.awaiting.worker && after.worker_turn
                == routed.worker_turn
            &&& after.note == routed.note && after.routed_at == routed.routed_at
                && after.worker_first == routed.worker_first && after.delivered_turn_only
                == routed.delivered_turn_only
        }),
{
}

/// A turn shows every routed note it presents, in the order they were routed, to the party
/// whose turn it is.
pub proof fn law_a_turn_shows_every_note_it_presents(routed: Seq<Routed>, turn: Turn)
    ensures
        shown_by(routed, turn) == routed.filter(|r: Routed| presents(r, turn)).map_values(
            |r: Routed| Shown { party: turn.party, turn: turn.number, note: r.note },
        ),
    decreases routed.len(),
{
    reveal(Seq::filter);
    let keep = |r: Routed| presents(r, turn);
    let as_shown = |r: Routed| Shown { party: turn.party, turn: turn.number, note: r.note };
    if routed.len() > 0 {
        law_a_turn_shows_every_note_it_presents(routed.drop_last(), turn);
        let before = routed.drop_last().filter(keep);
        assert(before.push(routed.last()).map_values(as_shown) =~= before.map_values(
            as_shown,
        ).push(as_shown(routed.last())));
    } else {
        assert(routed.filter(keep).map_values(as_shown) =~= Seq::empty());
    }
}

/// What is watched on behind a turn is every note that is still owed to somebody, in the
/// order they were routed.
pub proof fn law_what_is_still_owed_is_watched_on(routed: Seq<Routed>, turn: Turn)
    ensures
        still_routed(routed, turn) == routed.map_values(
            |r: Routed| if presents(r, turn) { presented(r, turn) } else { r },
        ).filter(|r: Routed| r.awaiting.worker || r.awaiting.supervisor),
    decreases routed.len(),
{
    reveal(Seq::filter);
    let after = |r: Routed| if presents(r, turn) { presented(r, turn) } else { r };
    let keep = |r: Routed| r.awaiting.worker || r.awaiting.supervisor;
    if routed.len() > 0 {
        law_what_is_still_owed_is_watched_on(routed.drop_last(), turn);
        let all = routed.map_values(after);
        assert(all.drop_last() =~= routed.drop_last().map_values(after));
        assert(all.last() == after(routed.last()));
    } else {
        assert(routed.map_values(after).filter(keep) =~= Seq::empty());
    }
}

/// Which envelopes show a turn opening: the agent graph's own `turn-started`, with a turn
/// and an instant, of the assistant — the worker's — or of the user — the supervisor's. It
/// is a delivered one where its origin says so.
pub proof fn law_which_envelopes_show_a_turn(envelope: Envelope, opened_at: Option<u64>)
    ensures
        ({
            let turn = turn_of(envelope, opened_at);
            let role = text_in(field_in(envelope.payload@, "role"@));
            let number = count_in(field_in(envelope.payload@, "turn"@));
            let origin = text_in(field_in(envelope.payload@, "origin"@));
            &&& turn is Some <==> envelope.source == Source::Agentgraph && envelope.kind.0@
                == "turn-started"@ && opened_at is Some && number is Some && (role == Some(
                "assistant"@,
            ) || role == Some("user"@))
            &&& turn matches Some(turn) ==> {
                &&& turn.party == Party::Worker <==> role == Some("assistant"@)
                &&& Some(turn.number) == number
                &&& Some(turn.opened_at) == opened_at
                &&& turn.delivered <==> origin == Some("delivered"@)
            }
        }),
{
}

/// How a note is watched: one composed into the task is owed to both, to the worker first,
/// and any turn of the worker's carries it; one a conversation routed is owed to whoever it
/// was routed to, by a delivered turn, and to the worker first unless it was queued.
pub proof fn law_how_a_note_is_watched(note: Consumed, at: u64)
    ensures
        ({
            let own = watched_in_task(note, at);
            &&& own.note == note && own.routed_at == at && own.worker_turn is None
            &&& own.awaiting.worker && own.awaiting.supervisor
            &&& own.worker_first && !own.delivered_turn_only
        }),
        ({
            let sent = watched(note, at);
            &&& sent.note == note && sent.routed_at == at && sent.worker_turn is None
            &&& sent.awaiting.worker <==> note.reached is Queued || note.reached is Worker
                || note.reached is Supervisor
            &&& sent.awaiting.supervisor <==> note.reached is Queued || note.reached is Worker
            &&& sent.worker_first <==> !(note.reached is Queued)
            &&& sent.delivered_turn_only
        }),
{
    law_who_is_shown_a_note(note.reached, Party::Worker);
    law_who_is_shown_a_note(note.reached, Party::Supervisor);
}

/// What a note is written as: whose task it updates and what it says, then its criterion
/// where it bound one, then what became of it, and the judge's reason where there is one.
pub proof fn law_what_a_note_is_written_as(note: Consumed)
    ensures
        ({
            let fields = note_fields(note);
            let bound = if note.criterion is Some { 1int } else { 0int };
            let judged = if note.reached is JudgedWith { 1int } else { 0int };
            &&& fields.len() == 3 + bound + judged
            &&& fields[0] == ("addressee"@, note.addressee.word())
            &&& fields[1] == ("text"@, note.text@)
            &&& note.criterion is Some ==> fields[2] == ("criterion"@, note.criterion->0@)
            &&& fields[2 + bound] == ("reached"@, note.reached.word())
            &&& note.reached matches Reached::JudgedWith { completion_reason } ==> fields.last()
                == ("completion_reason"@, completion_reason@)
        }),
{
}

} // verus!
