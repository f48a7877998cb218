//! Pool maintenance, as an idle driver runs it over the host's worktree pools.
//!
//! What decides whether a slot is maintained is the slot's own stamp; what is
//! decided here is when a driver asks, what one sweep amounts to, whether it is
//! recorded, and in which words a reader is told of it.
use vstd::prelude::*;

use crate::event::{is_kind, Envelope, PipelineKind};
use crate::json;
use crate::json::{field_in, Json};
use crate::text;
use crate::text::{bound, dec, dec_int, join, one_lined, text_of, texts};

pub use crate::schedule::{
    MaintenanceConfig,
    MaintenanceDefault,
    MaintenanceRule,
    RuleMatch,
    Span,
    FLAG,
    KEY,
    SCHEDULE_VERSION,
};

verus! {

/// The environment variable bounding how often an idle driver starts a sweep.
pub const PACE_ENV: &'static str = "ONEPIPELINE_MAINTENANCE_PACE_SECONDS";

/// How often an idle driver starts a sweep when nothing overrides it.
pub const DEFAULT_PACE_SECONDS: u64 = 600;

/// How long a driver whose pace has come due but whose pass was not idle waits
/// before it asks itself again, in milliseconds.
pub const RECHECK_MILLIS: u64 = 60_000;

/// The pace a setting states, in seconds: one that is not a positive number takes
/// the default.
pub open spec fn pace_stated(setting: Option<Seq<char>>) -> u64 {
    match setting {
        Some(setting) => match text::read_u64(setting) {
            Some(seconds) if seconds > 0 => seconds,
            _ => DEFAULT_PACE_SECONDS,
        },
        None => DEFAULT_PACE_SECONDS,
    }
}

/// The pace an idle driver starts sweeps at, in seconds, from what the
/// environment states.
pub fn pace(setting: &Option<String>) -> (r: u64)
    ensures
        r == pace_stated(text_of(*setting)),
        r > 0,
{
    match setting {
        Some(setting) => match text::parse_u64(setting.as_str()) {
            Some(seconds) => if seconds > 0 {
                seconds
            } else {
                DEFAULT_PACE_SECONDS
            },
            None => DEFAULT_PACE_SECONDS,
        },
        None => DEFAULT_PACE_SECONDS,
    }
}

/// How a maintenance command ended.
#[derive(Debug, Clone, Copy, PartialEq, Eq, Structural)]
pub enum MaintenanceOutcome {
    /// It exited zero inside its bound.
    Succeeded,
    /// It exited non-zero, or was ended by a signal.
    Failed {
        /// The exit status, where it has one.
        exit: Option<i32>,
    },
    /// The bound elapsed first.
    TimedOut,
}

/// What became of one slot.
#[derive(Debug, PartialEq, Eq)]
pub enum SlotOutcome {
    /// It was maintained recently enough.
    NotDue {
        /// When, RFC3339.
        last_maintained: String,
    },
    /// A session is working in it.
    InUse {
        /// Which.
        session: String,
    },
    /// A healthy slot something else holds right now.
    Unavailable {
        /// What holds it.
        holder: String,
    },
    /// Its clone, worktree or record is not usable.
    Broken {
        /// What is wrong with it.
        reason: String,
    },
    /// The command ran in it.
    Ran {
        /// How it ended.
        outcome: MaintenanceOutcome,
        /// How long it ran, in milliseconds.
        duration_ms: u64,
        /// The artifact everything it wrote is stored as.
        log: Option<String>,
    },
}

/// One slot, and what became of it.
#[derive(Debug, PartialEq, Eq)]
pub struct SlotMaintenance {
    /// The slot's number.
    pub number: u32,
    /// What became of it.
    pub outcome: SlotOutcome,
}

/// What became of one identity.
#[derive(Debug, PartialEq, Eq)]
pub enum IdentityOutcome {
    /// There is nothing to run.
    NoMaintainCommand,
    /// Nothing has cut a slot for it.
    NoSlots,
    /// Another process is maintaining it.
    Claimed {
        /// Which.
        by_pid: u32,
    },
    /// Every slot, in number order.
    Slots(Vec<SlotMaintenance>),
}

/// One identity, as one sweep left it.
#[derive(Debug, PartialEq, Eq)]
pub struct Maintained {
    /// The identity key.
    pub identity: String,
    /// The cadence it was maintained on.
    pub every: Span,
    /// What it was answered, or why it could not be asked.
    pub outcome: Result<IdentityOutcome, String>,
}

/// A slot that is news: the command ran in it, or it was due and could not be
/// maintained.
pub open spec fn slot_is_news(slot: SlotOutcome) -> bool {
    slot is Ran || slot is Unavailable || slot is Broken
}

/// An identity that is news: it could not be asked, another process had it, or
/// one of its slots is news.
pub open spec fn identity_is_news(outcome: Result<IdentityOutcome, String>) -> bool {
    match outcome {
        Err(_) => true,
        Ok(IdentityOutcome::Claimed { .. }) => true,
        Ok(IdentityOutcome::Slots(slots)) => exists|i: int|
            0 <= i < slots@.len() && slot_is_news((#[trigger] slots@[i]).outcome),
        Ok(_) => false,
    }
}

/// The fields a sweep's record holds for one identity: its key, its cadence, and its
/// outcome as it was serialized or the reason there is none.
pub open spec fn entered(
    fields: Seq<(String, Json)>,
    one: Maintained,
    written: Result<Json, String>,
) -> bool {
    &&& fields.len() == 3
    &&& json::all_texts(
        fields.take(2),
        seq![("identity"@, one.identity@), ("every"@, one.every.spelled@)],
    )
    &&& match (one.outcome, written) {
        (Ok(_), Ok(outcome)) => fields[2].0@ == "outcome"@ && fields[2].1 == outcome,
        (Ok(_), Err(why)) => fields[2].0@ == "error"@ && fields[2].1 is Text
            && fields[2].1->Text_0@ == bound(
            "the sibling's outcome could not be recorded: "@ + why@,
        ),
        (Err(why), _) => fields[2].0@ == "error"@ && fields[2].1 is Text
            && fields[2].1->Text_0@ == bound(why@),
    }
}

impl Maintained {
    /// Whether a sweep's record names this identity.
    pub fn is_recorded(&self) -> (r: bool)
        ensures
            r == identity_is_news(self.outcome),
    {
        match &self.outcome {
            Err(_) => true,
            Ok(IdentityOutcome::Claimed { .. }) => true,
            Ok(IdentityOutcome::Slots(slots)) => {
                let mut i: usize = 0;
                while i < slots.len()
                    invariant
                        self.outcome == Ok::<IdentityOutcome, String>(
                            IdentityOutcome::Slots(*slots),
                        ),
                        i <= slots@.len(),
                        forall|j: int|
                            0 <= j < i ==> !slot_is_news((#[trigger] slots@[j]).outcome),
                    decreases slots@.len() - i,
                {
                    let news: bool = match &slots[i].outcome {
                        SlotOutcome::Ran { .. } | SlotOutcome::Unavailable { .. }
                        | SlotOutcome::Broken { .. } => true,
                        _ => false,
                    };
                    if news {
                        assert(slot_is_news(slots@[i as int].outcome));
                        return true;
                    }
                    i += 1;
                }
                false
            },
            Ok(_) => false,
        }
    }

    /// The record's entry for this identity: its outcome as it was serialized, or the
    /// reason there is none. An outcome that could not be serialized is recorded as that
    /// refusal rather than dropped.
    ///
    /// `written` is what serializing the outcome came to; an identity that has none has
    /// nothing written.
    pub fn payload(&self, written: Result<Json, String>) -> (r: Vec<(String, Json)>)
        ensures
            entered(r@, *self, written),
    {
        let mut fields: Vec<(String, Json)> = Vec::new();
        let ghost none = Seq::<(Seq<char>, Seq<char>)>::empty();
        assert(json::all_texts(fields@, none));
        json::push_text(&mut fields, "identity", self.identity.as_str());
        json::push_text(&mut fields, "every", self.every.spelled.as_str());
        let ghost before = fields@;
        proof {
            assert(none.push(("identity"@, self.identity@)).push(("every"@, self.every.spelled@))
                =~= seq![("identity"@, self.identity@), ("every"@, self.every.spelled@)]);
        }
        let why: String = match &self.outcome {
            Err(why) => why.clone(),
            Ok(_) => match written {
                Ok(outcome) => {
                    fields.push(("outcome".to_owned(), outcome));
                    assert(fields@.take(2) =~= before);
                    return fields;
                },
                Err(refused) => {
                    let mut why: String = String::from_str(
                        "the sibling's outcome could not be recorded: ",
                    );
                    why.append(refused.as_str());
                    why
                },
            },
        };
        let bounded = text::bounded(why.as_str());
        fields.push(("error".to_owned(), Json::Text(bounded)));
        assert(fields@.take(2) =~= before);
        fields
    }
}

/// What an identity comes to, from the cadence it resolved to and the answers the
/// maintenance reported for it: the first of them is its own. One whose cadence could
/// not be resolved is not asked, and stands on the default.
pub open spec fn came_to(
    r: Maintained,
    config: MaintenanceConfig,
    identity: String,
    every: Result<Span, String>,
    answered: Result<Vec<IdentityOutcome>, String>,
) -> bool {
    &&& r.identity == identity
    &&& r.every == (match every {
        Ok(every) => every,
        Err(_) => config.default.every,
    })
    &&& match every {
        Err(why) => r.outcome == Err::<IdentityOutcome, String>(why),
        Ok(_) => match answered {
            Err(why) => r.outcome == Err::<IdentityOutcome, String>(why),
            Ok(list) => if list@.len() > 0 {
                r.outcome == Ok::<IdentityOutcome, String>(list@[0])
            } else {
                r.outcome matches Err(why) && why@ == "the sibling answered for no identity"@
            },
        },
    }
}

/// What one identity was answered, from the cadence it resolved to and the
/// answers the maintenance reported for it: the first of them is its own.
pub fn maintained(
    identity: String,
    config: &MaintenanceConfig,
    every: Result<Span, String>,
    answered: Result<Vec<IdentityOutcome>, String>,
) -> (r: Maintained)
    ensures
        came_to(r, *config, identity, every, answered),
{
    match every {
        Err(why) => Maintained {
            identity,
            every: config.default.every.clone(),
            outcome: Err(why),
        },
        Ok(every) => {
            let outcome = match answered {
                Err(why) => Err(why),
                Ok(list) => {
                    let mut list = list;
                    if list.len() == 0 {
                        Err("the sibling answered for no identity".to_owned())
                    } else {
                        Ok(list.remove(0))
                    }
                },
            };
            Maintained { identity, every, outcome }
        },
    }
}

/// What one sweep did: every identity it visited, and how the enumeration went.
pub struct Swept {
    /// When the sweep started, RFC3339.
    pub started_at: String,
    /// Every identity, in sorted order.
    pub identities: Vec<Maintained>,
    /// Why the identities could not be enumerated at all, where they could not.
    pub failure: Option<String>,
}

/// A sweep that is news: the identities could not be enumerated, or one of them is
/// news.
pub open spec fn sweep_is_news(swept: Swept) -> bool {
    swept.failure is Some || exists|i: int|
        0 <= i < swept.identities@.len() && identity_is_news(
            (#[trigger] swept.identities@[i]).outcome,
        )
}

/// The positions of the identities a sweep's record names, in order.
pub open spec fn recorded_identities(identities: Seq<Maintained>) -> Seq<int>
    decreases identities.len(),
{
    if identities.len() == 0 {
        Seq::empty()
    } else {
        let before = recorded_identities(identities.drop_last());
        if identity_is_news(identities.last().outcome) {
            before.push(identities.len() - 1)
        } else {
            before
        }
    }
}

/// What a host whose identities could not be read is recorded with.
pub open spec fn unreadable_identities(why: Seq<char>) -> Seq<char> {
    "the host's registered identities could not be read: "@ + why
}

/// One identity of a sweep: the cadence it resolved to, and what it was answered.
pub struct Asked {
    /// The identity key.
    pub identity: String,
    /// The cadence it resolved to, or why it resolved to none.
    pub every: Result<Span, String>,
    /// What the maintenance reported for it, or why it could not be asked.
    pub answered: Result<Vec<IdentityOutcome>, String>,
}

/// What a sweep of every registered identity came to, in the order they were asked —
/// or why the host could not enumerate them at all.
pub fn sweep(config: &MaintenanceConfig, started_at: String, asked: Result<Vec<Asked>, String>) -> (r:
    Swept)
    ensures
        r.started_at == started_at,
        match asked {
            Err(why) => {
                &&& r.identities@ == Seq::<Maintained>::empty()
                &&& text_of(r.failure) == Some(unreadable_identities(why@))
            },
            Ok(list) => {
                &&& r.failure is None
                &&& r.identities@.len() == list@.len()
                &&& forall|i: int|
                    0 <= i < list@.len() ==> came_to(
                        #[trigger] r.identities@[i],
                        *config,
                        list@[i].identity,
                        list@[i].every,
                        list@[i].answered,
                    )
            },
        },
{
    let list = match asked {
        Err(why) => return Swept::unenumerated(started_at, why.as_str()),
        Ok(list) => list,
    };
    let ghost all = list@;
    let mut left = list;
    let mut identities: Vec<Maintained> = Vec::new();
    while left.len() > 0
        invariant
            identities@.len() + left@.len() == all.len(),
            left@ == all.skip(identities@.len() as int),
            forall|i: int|
                0 <= i < identities@.len() ==> came_to(
                    #[trigger] identities@[i],
                    *config,
                    all[i].identity,
                    all[i].every,
                    all[i].answered,
                ),
        decreases left@.len(),
    {
        let one = left.remove(0);
        identities.push(maintained(one.identity, config, one.every, one.answered));
        assert(left@ =~= all.skip(identities@.len() as int));
    }
    Swept { started_at, identities, failure: None }
}

impl Swept {
    /// A sweep that could not enumerate this host's identities.
    pub fn unenumerated(started_at: String, why: &str) -> (r: Self)
        ensures
            r.started_at == started_at,
            r.identities@ == Seq::<Maintained>::empty(),
            text_of(r.failure) == Some(unreadable_identities(why@)),
    {
        let mut failure: String = String::from_str(
            "the host's registered identities could not be read: ",
        );
        failure.append(why);
        Swept { started_at, identities: Vec::new(), failure: Some(failure) }
    }

    /// Whether this sweep is written into the record at all. One on which every
    /// identity had nothing due and nothing wrong is not: a record of that would be
    /// a record of nothing.
    pub fn is_recorded(&self) -> (r: bool)
        ensures
            r == sweep_is_news(*self),
    {
        if self.failure.is_some() {
            return true;
        }
        let mut i: usize = 0;
        while i < self.identities.len()
            invariant
                i <= self.identities@.len(),
                self.failure is None,
                forall|j: int|
                    0 <= j < i ==> !identity_is_news((#[trigger] self.identities@[j]).outcome),
            decreases self.identities@.len() - i,
        {
            if self.identities[i].is_recorded() {
                assert(identity_is_news(self.identities@[i as int].outcome));
                return true;
            }
            i += 1;
        }
        false
    }

    /// The record's payload: when the sweep started, an entry for each identity that is
    /// news, in order, and why the identities could not be enumerated where they could
    /// not.
    ///
    /// `written` is what serializing each identity's outcome came to, one by one.
    pub fn payload(&self, written: Vec<Result<Json, String>>) -> (r: Vec<(String, Json)>)
        requires
            written@.len() == self.identities@.len(),
        ensures
            r@[0].0@ == "started_at"@ && r@[0].1 is Text && r@[0].1->Text_0@ == self.started_at@,
            r@[1].0@ == "identities"@ && (r@[1].1 matches Json::List(entries) && are_entries(
                entries@,
                self.identities@,
                written@,
            )),
            match self.failure {
                None => r@.len() == 2,
                Some(why) => r@.len() == 3 && r@[2].0@ == "error"@ && r@[2].1 is Text
                    && r@[2].1->Text_0@ == bound(why@),
            },
    {
        let mut entries: Vec<Json> = Vec::new();
        let ghost all = self.identities@;
        let ghost given = written@;
        let n: usize = written.len();
        let mut i: usize = 0;
        assert(recorded_identities(all.take(0)) =~= Seq::empty());
        for one in it: written.into_iter()
            invariant
                it.seq() == given,
                all == self.identities@,
                given.len() == all.len(),
                n == all.len(),
                i == it.index(),
                are_entries(entries@, all.take(i as int), given),
        {
            assert(one == given[i as int]);
            proof {
                assert(all.take(i + 1).drop_last() =~= all.take(i as int));
                assert(all.take(i + 1).last() == all[i as int]);
                lemma_recorded_within(all.take(i as int));
            }
            let ghost was = entries@;
            if self.identities[i].is_recorded() {
                let fields = self.identities[i].payload(one);
                entries.push(Json::Object(fields));
            }
            i += 1;
            proof {
                let next = all.take(i as int);
                assert forall|k: int| 0 <= k < entries@.len() implies is_entry(
                    #[trigger] entries@[k],
                    next,
                    given,
                    recorded_identities(next)[k],
                ) by {
                    if k < was.len() {
                        assert(is_entry(
                            was[k],
                            all.take(i - 1),
                            given,
                            recorded_identities(all.take(i - 1))[k],
                        ));
                    }
                }
            }
        }
        assert(all.take(all.len() as int) =~= all);
        let mut fields: Vec<(String, Json)> = Vec::new();
        fields.push(("started_at".to_owned(), Json::Text(self.started_at.clone())));
        fields.push(("identities".to_owned(), Json::List(entries)));
        if let Some(failure) = &self.failure {
            let bounded = text::bounded(failure.as_str());
            fields.push(("error".to_owned(), Json::Text(bounded)));
        }
        fields
    }
}

/// An entry of a sweep's record is that of the identity at a position.
pub open spec fn is_entry(
    entry: Json,
    identities: Seq<Maintained>,
    written: Seq<Result<Json, String>>,
    at: int,
) -> bool {
    &&& 0 <= at < identities.len()
    &&& entry matches Json::Object(fields) && entered(fields@, identities[at], written[at])
}

/// The entries of a sweep's record: one for each identity that is news, in order.
pub open spec fn are_entries(
    entries: Seq<Json>,
    identities: Seq<Maintained>,
    written: Seq<Result<Json, String>>,
) -> bool {
    &&& entries.len() == recorded_identities(identities).len()
    &&& forall|k: int|
        0 <= k < entries.len() ==> is_entry(
            #[trigger] entries[k],
            identities,
            written,
            recorded_identities(identities)[k],
        )
}

proof fn lemma_recorded_within(identities: Seq<Maintained>)
    ensures
        forall|k: int|
            0 <= k < recorded_identities(identities).len() ==> 0 <= #[trigger] recorded_identities(
                identities,
            )[k] < identities.len(),
    decreases identities.len(),
{
    if identities.len() > 0 {
        let before = recorded_identities(identities.drop_last());
        lemma_recorded_within(identities.drop_last());
        assert forall|k: int| 0 <= k < recorded_identities(identities).len() implies 0
            <= #[trigger] recorded_identities(identities)[k] < identities.len() by {
            if k < before.len() {
                assert(recorded_identities(identities)[k] == before[k]);
            }
        }
    }
}

/// A sweep's record names an identity exactly where it is news, and a sweep that
/// enumerated the host is recorded exactly where its record would name one.
pub proof fn law_a_record_names_what_is_news(swept: Swept)
    requires
        swept.failure is None,
    ensures
        sweep_is_news(swept) <==> recorded_identities(swept.identities@).len() > 0,
{
    lemma_recorded(swept.identities@);
}

proof fn lemma_recorded(identities: Seq<Maintained>)
    ensures
        recorded_identities(identities).len() > 0 <==> exists|i: int|
            0 <= i < identities.len() && identity_is_news((#[trigger] identities[i]).outcome),
    decreases identities.len(),
{
    if identities.len() > 0 {
        let rest = identities.drop_last();
        lemma_recorded(rest);
        if recorded_identities(rest).len() > 0 {
            let i = choose|i: int|
                0 <= i < rest.len() && identity_is_news((#[trigger] rest[i]).outcome);
            assert(identity_is_news(identities[i].outcome));
        }
        if exists|i: int|
            0 <= i < identities.len() && identity_is_news((#[trigger] identities[i]).outcome) {
            let i = choose|i: int|
                0 <= i < identities.len() && identity_is_news((#[trigger] identities[i]).outcome);
            if i < rest.len() {
                assert(identity_is_news(rest[i].outcome));
            }
        }
        if identity_is_news(identities.last().outcome) {
            assert(identity_is_news(identities[identities.len() - 1].outcome));
        }
    }
}

/// How a command ended, in words.
pub open spec fn ended_phrase(outcome: MaintenanceOutcome) -> Seq<char> {
    match outcome {
        MaintenanceOutcome::Succeeded => "succeeded"@,
        MaintenanceOutcome::Failed { exit: Some(exit) } => "failed (exit "@ + dec_int(exit as int)
            + ")"@,
        MaintenanceOutcome::Failed { exit: None } =>
            "failed (ended by a signal, or never started)"@,
        MaintenanceOutcome::TimedOut => "timed out"@,
    }
}

/// One slot's outcome, in words. Busy is not broken: a slot something else holds
/// right now and one nothing waiting clears are phrased apart.
pub open spec fn slot_words(outcome: SlotOutcome) -> Seq<char> {
    match outcome {
        SlotOutcome::NotDue { last_maintained } => "not due, last maintained "@ + one_lined(
            last_maintained@,
        ),
        SlotOutcome::InUse { session } => "kept: session "@ + one_lined(session@)
            + " is working in it"@,
        SlotOutcome::Unavailable { holder } => "kept: busy — "@ + one_lined(holder@),
        SlotOutcome::Broken { reason } => "kept: broken — "@ + one_lined(reason@),
        SlotOutcome::Ran { outcome, duration_ms, log } => "ran — "@ + ended_phrase(outcome)
            + " in "@ + dec(duration_ms as nat) + " ms"@ + (match log {
            Some(log) => ", log "@ + one_lined(log@),
            None => ""@,
        }),
    }
}

/// One slot's outcome, in words.
pub fn slot_phrase(outcome: &SlotOutcome) -> (r: String)
    ensures
        r@ == slot_words(*outcome),
{
    match outcome {
        SlotOutcome::NotDue { last_maintained } => {
            let line = text::one_line(last_maintained.as_str());
            let mut out: String = String::from_str("not due, last maintained ");
            out.append(line.as_str());
            out
        },
        SlotOutcome::InUse { session } => {
            let line = text::one_line(session.as_str());
            let mut out: String = String::from_str("kept: session ");
            out.append(line.as_str());
            out.append(" is working in it");
            out
        },
        SlotOutcome::Unavailable { holder } => {
            let line = text::one_line(holder.as_str());
            let mut out: String = String::from_str("kept: busy — ");
            out.append(line.as_str());
            out
        },
        SlotOutcome::Broken { reason } => {
            let line = text::one_line(reason.as_str());
            let mut out: String = String::from_str("kept: broken — ");
            out.append(line.as_str());
            out
        },
        SlotOutcome::Ran { outcome, duration_ms, log } => {
            let ended: String = match outcome {
                MaintenanceOutcome::Succeeded => "succeeded".to_owned(),
                MaintenanceOutcome::Failed { exit } => match exit {
                    Some(exit) => {
                        let code = text::dec_int_text(*exit as i64);
                        let mut out: String = String::from_str("failed (exit ");
                        out.append(code.as_str());
                        out.append(")");
                        out
                    },
                    None => "failed (ended by a signal, or never started)".to_owned(),
                },
                MaintenanceOutcome::TimedOut => "timed out".to_owned(),
            };
            let tail: String = match log {
                Some(log) => {
                    let line = text::one_line(log.as_str());
                    let mut tail: String = String::from_str(", log ");
                    tail.append(line.as_str());
                    tail
                },
                None => "".to_owned(),
            };
            let mut out: String = String::from_str("ran — ");
            out.append(ended.as_str());
            out.append(" in ");
            text::push_dec(&mut out, *duration_ms);
            out.append(" ms");
            out.append(tail.as_str());
            out
        },
    }
}

/// Each slot of an identity, in words.
pub open spec fn slots_words(slots: Seq<SlotMaintenance>) -> Seq<Seq<char>> {
    slots.map_values(
        |slot: SlotMaintenance|
            "slot "@ + dec(slot.number as nat) + " "@ + slot_words(slot.outcome),
    )
}

/// One identity's outcome, in words.
pub open spec fn identity_words(outcome: IdentityOutcome) -> Seq<char> {
    match outcome {
        IdentityOutcome::NoMaintainCommand => "no maintain command"@,
        IdentityOutcome::NoSlots => "no slots"@,
        IdentityOutcome::Claimed { by_pid } => "claimed — another pool maintain (pid "@ + dec(
            by_pid as nat,
        ) + ") was maintaining it"@,
        IdentityOutcome::Slots(slots) => join(slots_words(slots@), "; "@),
    }
}

/// One identity's outcome, in words.
pub fn identity_phrase(outcome: &IdentityOutcome) -> (r: String)
    ensures
        r@ == identity_words(*outcome),
{
    match outcome {
        IdentityOutcome::NoMaintainCommand => "no maintain command".to_owned(),
        IdentityOutcome::NoSlots => "no slots".to_owned(),
        IdentityOutcome::Claimed { by_pid } => {
            let mut out: String = String::from_str("claimed — another pool maintain (pid ");
            text::push_dec(&mut out, *by_pid as u64);
            out.append(") was maintaining it");
            out
        },
        IdentityOutcome::Slots(slots) => {
            let mut each: Vec<String> = Vec::new();
            let mut i: usize = 0;
            while i < slots.len()
                invariant
                    i <= slots@.len(),
                    texts(each@) == slots_words(slots@).take(i as int),
                decreases slots@.len() - i,
            {
                let phrase = slot_phrase(&slots[i].outcome);
                let mut one: String = String::from_str("slot ");
                text::push_dec(&mut one, slots[i].number as u64);
                one.append(" ");
                one.append(phrase.as_str());
                assert(one@ == slots_words(slots@)[i as int]);
                let ghost was = texts(each@);
                each.push(one);
                assert(texts(each@) =~= was.push(one@));
                i += 1;
                assert(texts(each@) =~= slots_words(slots@).take(i as int));
            }
            assert(texts(each@) =~= slots_words(slots@));
            text::joined(&each, "; ")
        },
    }
}

/// A busy slot and a broken one are never phrased alike.
pub proof fn law_busy_is_not_broken(holder: String, reason: String)
    ensures
        slot_words(SlotOutcome::Unavailable { holder }) != slot_words(
            SlotOutcome::Broken { reason },
        ),
{
    reveal_strlit("kept: busy — ");
    reveal_strlit("kept: broken — ");
    let a = slot_words(SlotOutcome::Unavailable { holder });
    let b = slot_words(SlotOutcome::Broken { reason });
    assert(a[7] == 'u');
    assert(b[7] == 'r');
}

/// What `status` says about a sweep in progress: nothing unless something is
/// driving the run and the marker of a live sweep stands.
pub open spec fn status_words(driving: bool, marker: Option<Option<Seq<char>>>) -> Seq<char> {
    if driving && marker is Some {
        "  pool maintenance: a sweep of the host's worktree pools is in progress, started "@ + (
        match marker->0 {
            Some(since) => since,
            None => "an unrecorded time"@,
        }) + "\n"@
    } else {
        ""@
    }
}

/// What `status` says about a sweep in progress, or nothing. The marker is the one
/// the driver keeps while its sweep is live, with the time it names, where it names
/// one.
pub fn status_line(driving: bool, marker: &Option<Option<String>>) -> (r: String)
    ensures
        r@ == status_words(
            driving,
            match marker {
                Some(since) => Some(text_of(*since)),
                None => None,
            },
        ),
{
    if driving {
        if let Some(since) = marker {
            let mut out: String = String::from_str(
                "  pool maintenance: a sweep of the host's worktree pools is in progress, started ",
            );
            match since {
                Some(since) => {
                    out.append(since.as_str());
                },
                None => {
                    out.append("an unrecorded time");
                },
            }
            out.append("\n");
            return out;
        }
    }
    "".to_owned()
}

/// One identity of a recorded sweep, as it reads back: what the record holds for
/// it, with its outcome where this build reads it.
pub struct SweepEntry {
    /// The identity, where it is named.
    pub identity: Option<String>,
    /// Its cadence, where it is stated.
    pub every: Option<String>,
    /// Why it could not be asked, where it could not.
    pub error: Option<String>,
    /// Its outcome, where one is recorded; the inner one is absent where this build
    /// does not read it.
    pub outcome: Option<Option<IdentityOutcome>>,
}

/// A recorded sweep, as it reads back.
pub struct SweepRecord {
    /// When it started, where that is recorded.
    pub started_at: Option<String>,
    /// Why the host's identities could not be enumerated, where they could not.
    pub error: Option<String>,
    /// The identities it names.
    pub identities: Vec<SweepEntry>,
}

/// A relayed value on one line, or what stands for a missing one.
pub open spec fn said_or(value: Option<String>, missing: Seq<char>) -> Seq<char> {
    match value {
        Some(value) => one_lined(value@),
        None => missing,
    }
}

fn say_or(value: &Option<String>, missing: &str) -> (r: String)
    ensures
        r@ == said_or(*value, missing@),
{
    match value {
        Some(value) => text::one_line(value.as_str()),
        None => missing.to_owned(),
    }
}

/// What became of one identity of a recorded sweep, in words.
pub open spec fn entry_words(entry: SweepEntry) -> Seq<char> {
    match entry.error {
        Some(error) => "failed — "@ + one_lined(error@),
        None => match entry.outcome {
            Some(Some(outcome)) => identity_words(outcome),
            Some(None) => "an outcome this build does not read"@,
            None => "no outcome recorded"@,
        },
    }
}

/// One line of a recorded sweep.
pub open spec fn entry_line(entry: SweepEntry) -> Seq<char> {
    "      "@ + said_or(entry.identity, "an unnamed identity"@) + " (every "@ + said_or(
        entry.every,
        "?"@,
    ) + "): "@ + entry_words(entry) + "\n"@
}

/// The lines of a recorded sweep's identities.
pub open spec fn entry_lines(entries: Seq<SweepEntry>) -> Seq<char>
    decreases entries.len(),
{
    if entries.len() == 0 {
        Seq::empty()
    } else {
        entry_lines(entries.drop_last()) + entry_line(entries.last())
    }
}

/// A record of a sweep, among a run's events.
pub open spec fn is_sweep(event: Envelope) -> bool {
    event.kind.0@ == PipelineKind::PoolMaintenance.word()
}

/// The last sweep a run's first `n` events record.
pub open spec fn last_record(events: Seq<Envelope>, n: int) -> Option<int>
    decreases n,
{
    if n <= 0 || n > events.len() {
        None
    } else if is_sweep(events[n - 1]) {
        Some(n - 1)
    } else {
        last_record(events, n - 1)
    }
}

/// The values a payload holds in the array under `identities`; none where it holds no
/// array there.
pub open spec fn entries_in(payload: Seq<(String, Json)>) -> Seq<Json> {
    match field_in(payload, "identities"@) {
        Some(Json::List(list)) => list@,
        _ => Seq::empty(),
    }
}

/// What a value holds under a key; nothing where it is not an object.
pub open spec fn member(value: Json, key: Seq<char>) -> Option<Json> {
    match value {
        Json::Object(fields) => field_in(fields@, key),
        _ => None,
    }
}

/// An entry as it reads back: a key that is missing, or holds no text, reads as absent.
/// `read` is what the outcome it records was read as.
pub open spec fn read_as(entry: SweepEntry, value: Json, read: Option<IdentityOutcome>) -> bool {
    &&& text_of(entry.identity) == json::text_in(member(value, "identity"@))
    &&& text_of(entry.every) == json::text_in(member(value, "every"@))
    &&& text_of(entry.error) == json::text_in(member(value, "error"@))
    &&& entry.outcome == (if member(value, "outcome"@) is Some {
        Some(read)
    } else {
        None
    })
}

/// A sweep's record as it reads back. `outcomes` is what the outcome of each of its
/// entries was read as, one by one.
pub open spec fn record_read_as(
    record: SweepRecord,
    payload: Seq<(String, Json)>,
    outcomes: Seq<Option<IdentityOutcome>>,
) -> bool {
    &&& text_of(record.started_at) == json::text_in(field_in(payload, "started_at"@))
    &&& text_of(record.error) == json::text_in(field_in(payload, "error"@))
    &&& record.identities@.len() == entries_in(payload).len()
    &&& forall|i: int|
        0 <= i < record.identities@.len() ==> read_as(
            #[trigger] record.identities@[i],
            entries_in(payload)[i],
            if i < outcomes.len() {
                outcomes[i]
            } else {
                None
            },
        )
}

fn find_record(events: &Vec<Envelope>) -> (r: Option<usize>)
    ensures
        match r {
            Some(at) => at < events@.len() && last_record(events@, events@.len() as int) == Some(
                at as int,
            ),
            None => last_record(events@, events@.len() as int) is None,
        },
{
    let mut n: usize = events.len();
    while n > 0
        invariant
            n <= events@.len(),
            last_record(events@, events@.len() as int) == last_record(events@, n as int),
        decreases n,
    {
        if is_kind(&events[n - 1], PipelineKind::PoolMaintenance) {
            return Some(n - 1);
        }
        n -= 1;
    }
    None
}

fn text_member(value: &Json, key: &str) -> (r: Option<String>)
    ensures
        text_of(r) == json::text_in(member(*value, key@)),
{
    match value {
        Json::Object(fields) => match json::text_field(fields, key) {
            Some(text) => Some(text.clone()),
            None => None,
        },
        _ => None,
    }
}

fn held_outcome(value: &Json) -> (r: Option<&Json>)
    ensures
        match r {
            Some(outcome) => member(*value, "outcome"@) == Some(*outcome),
            None => member(*value, "outcome"@) is None,
        },
{
    match value {
        Json::Object(fields) => json::field(fields, "outcome"),
        _ => None,
    }
}

/// The outcomes the last sweep a run recorded holds, entry by entry, each as it was
/// serialized: what its own library reads them as is asked of that library.
pub fn last_outcomes(events: &Vec<Envelope>) -> (r: Vec<Option<&Json>>)
    ensures
        match last_record(events@, events@.len() as int) {
            None => r@.len() == 0,
            Some(at) => {
                let entries = entries_in(events@[at].payload@);
                r@.len() == entries.len() && forall|i: int|
                    0 <= i < r@.len() ==> (match #[trigger] r@[i] {
                        Some(outcome) => member(entries[i], "outcome"@) == Some(*outcome),
                        None => member(entries[i], "outcome"@) is None,
                    })
            },
        },
{
    let mut out: Vec<Option<&Json>> = Vec::new();
    let at: usize = match find_record(events) {
        Some(at) => at,
        None => {
            return out;
        },
    };
    if let Some(Json::List(list)) = json::field(&events[at].payload, "identities") {
        let mut i: usize = 0;
        while i < list.len()
            invariant
                i <= list@.len(),
                out@.len() == i,
                forall|k: int|
                    0 <= k < i ==> (match #[trigger] out@[k] {
                        Some(outcome) => member(list@[k], "outcome"@) == Some(*outcome),
                        None => member(list@[k], "outcome"@) is None,
                    }),
            decreases list@.len() - i,
        {
            out.push(held_outcome(&list[i]));
            i += 1;
        }
    }
    out
}

/// The last sweep a run recorded, as it reads back, or nothing where it recorded none.
///
/// `outcomes` is what each of [`last_outcomes`] was read as, one by one; one this build
/// does not read is nothing.
pub fn last_sweep(events: &Vec<Envelope>, outcomes: Vec<Option<IdentityOutcome>>) -> (r: Option<
    SweepRecord,
>)
    ensures
        match last_record(events@, events@.len() as int) {
            None => r is None,
            Some(at) => r matches Some(record) && record_read_as(
                record,
                events@[at].payload@,
                outcomes@,
            ),
        },
{
    let at: usize = match find_record(events) {
        Some(at) => at,
        None => {
            return None;
        },
    };
    let payload = &events[at].payload;
    let started_at: Option<String> = match json::text_field(payload, "started_at") {
        Some(text) => Some(text.clone()),
        None => None,
    };
    let error: Option<String> = match json::text_field(payload, "error") {
        Some(text) => Some(text.clone()),
        None => None,
    };
    let ghost given = outcomes@;
    let mut left = outcomes;
    let mut identities: Vec<SweepEntry> = Vec::new();
    assert(given.skip(0) =~= given);
    if let Some(Json::List(list)) = json::field(payload, "identities") {
        let mut i: usize = 0;
        while i < list.len()
            invariant
                i <= list@.len(),
                identities@.len() == i,
                left@ == (if i <= given.len() {
                    given.skip(i as int)
                } else {
                    Seq::empty()
                }),
                forall|k: int|
                    0 <= k < i ==> read_as(
                        #[trigger] identities@[k],
                        list@[k],
                        if k < given.len() {
                            given[k]
                        } else {
                            None
                        },
                    ),
            decreases list@.len() - i,
        {
            let read: Option<IdentityOutcome> = if left.len() > 0 {
                left.remove(0)
            } else {
                None
            };
            let outcome: Option<Option<IdentityOutcome>> = match held_outcome(&list[i]) {
                Some(_) => Some(read),
                None => None,
            };
            identities.push(
                SweepEntry {
                    identity: text_member(&list[i], "identity"),
                    every: text_member(&list[i], "every"),
                    error: text_member(&list[i], "error"),
                    outcome,
                },
            );
            i += 1;
            assert(left@ =~= (if i <= given.len() {
                given.skip(i as int)
            } else {
                Seq::empty()
            }));
        }
    }
    Some(SweepRecord { started_at, error, identities })
}

/// What `results` says about the last sweep that did something.
pub open spec fn results_words(record: Option<SweepRecord>) -> Seq<char> {
    match record {
        None => ""@,
        Some(record) => {
            let opening = "  pool maintenance: last sweep that did something started "@ + said_or(
                record.started_at,
                "at an unrecorded time"@,
            ) + "\n"@;
            let enumerated = match record.error {
                Some(error) => opening
                    + "      the host's identities could not be enumerated: "@ + one_lined(error@)
                    + "\n"@,
                None => opening,
            };
            enumerated + entry_lines(record.identities@)
        },
    }
}

fn render_entry(entry: &SweepEntry) -> (r: String)
    ensures
        r@ == entry_line(*entry),
{
    let identity = say_or(&entry.identity, "an unnamed identity");
    let every = say_or(&entry.every, "?");
    let what: String = match &entry.error {
        Some(error) => {
            let line = text::one_line(error.as_str());
            let mut what: String = String::from_str("failed — ");
            what.append(line.as_str());
            what
        },
        None => match &entry.outcome {
            Some(Some(outcome)) => identity_phrase(outcome),
            Some(None) => "an outcome this build does not read".to_owned(),
            None => "no outcome recorded".to_owned(),
        },
    };
    let mut out: String = String::from_str("      ");
    out.append(identity.as_str());
    out.append(" (every ");
    out.append(every.as_str());
    out.append("): ");
    out.append(what.as_str());
    out.append("\n");
    out
}

/// What `results` says about the last sweep that did something, or nothing.
pub fn results_lines(record: &Option<SweepRecord>) -> (r: String)
    ensures
        r@ == results_words(*record),
{
    let record: &SweepRecord = match record {
        Some(record) => record,
        None => {
            return "".to_owned();
        },
    };
    let started = say_or(&record.started_at, "at an unrecorded time");
    let mut out: String = String::from_str(
        "  pool maintenance: last sweep that did something started ",
    );
    out.append(started.as_str());
    out.append("\n");
    if let Some(error) = &record.error {
        let line = text::one_line(error.as_str());
        out.append("      the host's identities could not be enumerated: ");
        out.append(line.as_str());
        out.append("\n");
    }
    let ghost before = out@;
    let ghost all = record.identities@;
    let mut i: usize = 0;
    assert(out@ =~= before + entry_lines(all.take(0)));
    while i < record.identities.len()
        invariant
            i <= all.len(),
            all == record.identities@,
            out@ == before + entry_lines(all.take(i as int)),
        decreases all.len() - i,
    {
        let entry = &record.identities[i];
        proof {
            assert(all.take(i + 1).drop_last() =~= all.take(i as int));
            assert(all.take(i + 1).last() == *entry);
        }
        let line = render_entry(entry);
        out.append(line.as_str());
        i += 1;
        assert(out@ =~= before + entry_lines(all.take(i as int)));
    }
    assert(all.take(all.len() as int) =~= all);
    out
}

/// The schedule as one driver runs it: when it last started a sweep, and whether
/// one is running now.
///
/// In-memory and this driver's alone. A fresh driver starts with no last sweep and
/// asks on its first idle pass: what stops it maintaining a slot twice is the
/// slot's own stamp, and never anything remembered here.
#[derive(Debug, PartialEq, Eq)]
pub struct Maintenance {
    /// Whether the launch named a schedule at all.
    pub scheduled: bool,
    /// The pace sweeps are started at, in milliseconds.
    pub pace: u64,
    /// When this driver last started a sweep, in milliseconds.
    pub last_started: Option<u64>,
    /// Whether a sweep of this driver's is running.
    pub sweeping: bool,
}

/// What is said of a sweep that could not enumerate this host's identities.
pub open spec fn unenumerated_notice(failure: Seq<char>) -> Seq<char> {
    "onepipeline: the pool-maintenance sweep could not enumerate this host's identities: "@
        + failure
}

impl Maintenance {
    /// The pace has elapsed since this driver last started a sweep.
    pub open spec fn due(&self, now: u64) -> bool {
        match self.last_started {
            None => true,
            Some(last) => now >= last && now - last >= self.pace,
        }
    }

    /// The schedule the launch names, or none.
    pub fn of_launch(scheduled: bool, pace: u64) -> (r: Self)
        ensures
            r == (Maintenance { scheduled, pace, last_started: None, sweeping: false }),
    {
        Maintenance { scheduled, pace, last_started: None, sweeping: false }
    }

    /// Whether a sweep of this driver's is running now.
    pub fn is_sweeping(&self) -> (r: bool)
        ensures
            r == self.sweeping,
    {
        self.sweeping
    }

    /// Start a sweep on this pass, where the pass was idle, none is running, and
    /// the pace has elapsed. A launch naming no schedule starts nothing, ever.
    pub fn consider(&mut self, idle: bool, now: u64) -> (start: bool)
        ensures
            start == (old(self).scheduled && idle && !old(self).sweeping && old(self).due(now)),
            *final(self) == (if start {
                Maintenance { last_started: Some(now), sweeping: true, ..*old(self) }
            } else {
                *old(self)
            }),
    {
        if !self.scheduled || !idle || self.sweeping {
            return false;
        }
        let due: bool = match self.last_started {
            None => true,
            Some(last) => now >= last && now - last >= self.pace,
        };
        if !due {
            return false;
        }
        self.last_started = Some(now);
        self.sweeping = true;
        true
    }

    /// The sweep is over, or could not be started: the schedule is asked again at
    /// the next pace.
    pub fn over(&mut self)
        ensures
            *final(self) == (Maintenance { sweeping: false, ..*old(self) }),
    {
        self.sweeping = false;
    }

    /// The sweep is over: what is said of it on the error stream, and whether it is
    /// written into the record.
    pub fn record(&mut self, swept: &Swept) -> (r: (Option<String>, bool))
        ensures
            *final(self) == (Maintenance { sweeping: false, ..*old(self) }),
            text_of(r.0) == (match swept.failure {
                Some(failure) => Some(unenumerated_notice(failure@)),
                None => None,
            }),
            r.1 == sweep_is_news(*swept),
    {
        self.over();
        let notice: Option<String> = match &swept.failure {
            Some(failure) => {
                let mut said: String = String::from_str(
                    "onepipeline: the pool-maintenance sweep could not enumerate this host's identities: ",
                );
                said.append(failure.as_str());
                Some(said)
            },
            None => None,
        };
        (notice, swept.is_recorded())
    }

    /// The driver closes out: the sweep it waited for is recorded where there was
    /// one and it handed something back.
    pub fn close(self, handed: Option<Swept>) -> (r: Option<Swept>)
        ensures
            r == (if self.sweeping {
                handed
            } else {
                None
            }),
    {
        if self.sweeping {
            handed
        } else {
            None
        }
    }

    /// How long until this driver could next start a sweep, in milliseconds, or
    /// never. A pace already due is asked again on the recheck rather than at once:
    /// a pass that reached here with the pace due was not idle.
    pub fn next_due(&self, now: u64) -> (r: Option<u64>)
        ensures
            r == (if !self.scheduled || self.sweeping {
                None
            } else if self.due(now) || self.last_started is None {
                Some(RECHECK_MILLIS)
            } else {
                let last = self.last_started->0;
                let gone = if now >= last { now - last } else { 0 };
                if self.pace - gone <= 0 {
                    Some(RECHECK_MILLIS)
                } else {
                    Some((self.pace - gone) as u64)
                }
            }),
            r matches Some(wait) ==> wait > 0,
    {
        if !self.scheduled || self.sweeping {
            return None;
        }
        let until: u64 = match self.last_started {
            None => 0,
            Some(last) => {
                let gone: u64 = if now >= last {
                    now - last
                } else {
                    0
                };
                if self.pace > gone {
                    self.pace - gone
                } else {
                    0
                }
            },
        };
        if until == 0 {
            Some(RECHECK_MILLIS)
        } else {
            Some(until)
        }
    }
}

/// Two sweeps of one driver's are never started closer together than its pace,
/// and never while one is running.
pub proof fn law_sweeps_keep_their_pace(before: Maintenance, first: u64, second: u64)
    requires
        before.scheduled,
        !before.sweeping,
        before.due(first),
    ensures
        ({
            let sweeping = Maintenance { last_started: Some(first), sweeping: true, ..before };
            let over = Maintenance { sweeping: false, ..sweeping };
            over.due(second) ==> second >= first + before.pace
        }),
{
}

/// The pace of sweeps: the positive number of seconds a setting states, and ten minutes
/// where it states none; a driver that was not idle asks itself again a minute later.
pub proof fn law_the_pace_of_sweeps(setting: Option<Seq<char>>, n: u64)
    ensures
        setting is None ==> pace_stated(setting) == 600,
        setting is Some && text::read_u64(setting->0) is None ==> pace_stated(setting) == 600,
        setting is Some && text::read_u64(setting->0) == Some(0u64) ==> pace_stated(setting) == 600,
        setting is Some && text::read_u64(setting->0) == Some(n) && n > 0 ==> pace_stated(setting)
            == n,
        PACE_ENV@ == "ONEPIPELINE_MAINTENANCE_PACE_SECONDS"@,
        DEFAULT_PACE_SECONDS == 600,
        RECHECK_MILLIS == 60 * 1000,
{
    reveal_strlit("ONEPIPELINE_MAINTENANCE_PACE_SECONDS");
}

/// What is news of a slot: that the command ran in it, or that it was due and could not be
/// maintained. One that was not due, and one in use, are not.
pub proof fn law_what_is_news_of_a_slot(slot: SlotOutcome)
    ensures
        slot is Ran || slot is Unavailable || slot is Broken ==> slot_is_news(slot),
        slot is NotDue || slot is InUse ==> !slot_is_news(slot),
{
}

/// What is news of an identity: that it could not be asked, that another process had it,
/// or that there is news of one of its slots. One with nothing to run, and one without
/// slots, is not.
pub proof fn law_what_is_news_of_an_identity(outcome: Result<IdentityOutcome, String>)
    ensures
        outcome is Err ==> identity_is_news(outcome),
        outcome matches Ok(answer) ==> (answer is Claimed ==> identity_is_news(outcome)),
        outcome matches Ok(answer) ==> (answer is NoMaintainCommand || answer is NoSlots
            ==> !identity_is_news(outcome)),
        outcome matches Ok(IdentityOutcome::Slots(slots)) ==> (identity_is_news(outcome)
            <==> exists|i: int|
            0 <= i < slots@.len() && ((#[trigger] slots@[i]).outcome is Ran || slots@[i].outcome
                is Unavailable || slots@[i].outcome is Broken)),
{
}

/// A sweep is recorded where the identities could not be enumerated or there is news of
/// one of them.
pub proof fn law_which_sweeps_are_recorded(swept: Swept, i: int)
    ensures
        swept.failure is Some ==> sweep_is_news(swept),
        0 <= i < swept.identities@.len() && identity_is_news(swept.identities@[i].outcome)
            ==> sweep_is_news(swept),
        swept.failure is None && (forall|k: int|
            0 <= k < swept.identities@.len() ==> !identity_is_news(
                (#[trigger] swept.identities@[k]).outcome,
            )) ==> !sweep_is_news(swept),
{
}

/// A sweep's record names the identities there is news of, each once and in order.
pub proof fn law_a_record_names_each_piece_of_news_once(identities: Seq<Maintained>)
    ensures
        forall|at: int| #[trigger]
            recorded_identities(identities).contains(at) <==> 0 <= at < identities.len()
                && identity_is_news(identities[at].outcome),
        forall|i: int, j: int|
            0 <= i < j < recorded_identities(identities).len() ==> #[trigger] recorded_identities(
                identities,
            )[i] < #[trigger] recorded_identities(identities)[j],
    decreases identities.len(),
{
    let all = recorded_identities(identities);
    if identities.len() > 0 {
        let rest = identities.drop_last();
        law_a_record_names_each_piece_of_news_once(rest);
        let before = recorded_identities(rest);
        let n = identities.len() - 1;
        assert forall|at: int| #[trigger] all.contains(at) <==> 0 <= at < identities.len()
            && identity_is_news(identities[at].outcome) by {
            assert(before.contains(at) <==> 0 <= at < rest.len() && identity_is_news(
                rest[at].outcome,
            ));
            if 0 <= at < rest.len() {
                assert(rest[at] == identities[at]);
            }
            if before.contains(at) {
                let k = choose|k: int| 0 <= k < before.len() && before[k] == at;
                assert(all[k] == at);
            }
            if all.contains(at) {
                let k = choose|k: int| 0 <= k < all.len() && all[k] == at;
                if k < before.len() {
                    assert(before[k] == at);
                    assert(before.contains(at));
                }
            }
            if identity_is_news(identities.last().outcome) {
                assert(all[before.len() as int] == n);
            }
        }
        assert forall|i: int, j: int| 0 <= i < j < all.len() implies #[trigger] all[i]
            < #[trigger] all[j] by {
            assert(before.contains(before[i]));
            if j < before.len() {
                assert(before[i] < before[j]);
            }
        }
    } else {
        assert forall|at: int| !#[trigger] all.contains(at) by {}
    }
}

/// `status` speaks of a sweep only while something drives the run and the marker of a live
/// sweep stands, and says since when where the marker does.
pub proof fn law_when_status_speaks_of_a_sweep(driving: bool, marker: Option<Option<Seq<char>>>)
    ensures
        status_words(driving, marker).len() > 0 <==> driving && marker is Some,
        driving && marker is Some && marker->0 is Some ==> exists|a: Seq<char>, b: Seq<char>|
            status_words(driving, marker) == #[trigger] (a + marker->0->0 + b),
{
    reveal_strlit("");
    reveal_strlit("\n");
    if driving && marker is Some {
        let said = status_words(driving, marker);
        assert(said.len() >= "\n"@.len());
        if marker->0 is Some {
            assert(said
                == "  pool maintenance: a sweep of the host's worktree pools is in progress, started "@
                + marker->0->0 + "\n"@);
        }
    }
}

/// The last sweep a run recorded is the last of its events that is one.
pub proof fn law_the_last_sweep_is_the_last_recorded(events: Seq<Envelope>, n: int)
    requires
        0 <= n <= events.len(),
    ensures
        match last_record(events, n) {
            Some(at) => 0 <= at < n && events[at].kind.0@ == "pool-maintenance"@ && forall|j: int|
                at < j < n ==> (#[trigger] events[j]).kind.0@ != "pool-maintenance"@,
            None => forall|j: int|
                0 <= j < n ==> (#[trigger] events[j]).kind.0@ != "pool-maintenance"@,
        },
    decreases n,
{
    if n > 0 {
        law_the_last_sweep_is_the_last_recorded(events, n - 1);
    }
}

/// A sweep is due on the first pass, and then once its pace has gone by.
pub proof fn law_when_a_sweep_is_due(m: Maintenance, now: u64)
    ensures
        m.last_started is None ==> m.due(now),
        m.last_started matches Some(last) ==> (m.due(now) <==> now >= last + m.pace),
{
}

/// What a slot's phrase names: who or what holds it, what is wrong with it, or how the
/// command ended in it and how long that took.
pub proof fn law_what_a_slots_phrase_names(outcome: SlotOutcome)
    ensures
        outcome matches SlotOutcome::NotDue { last_maintained } ==> exists|a: Seq<char>|
            slot_words(outcome) == #[trigger] (a + one_lined(last_maintained@)),
        outcome matches SlotOutcome::InUse { session } ==> exists|a: Seq<char>, b: Seq<char>|
            slot_words(outcome) == #[trigger] (a + one_lined(session@) + b),
        outcome matches SlotOutcome::Unavailable { holder } ==> exists|a: Seq<char>|
            slot_words(outcome) == #[trigger] (a + one_lined(holder@)),
        outcome matches SlotOutcome::Broken { reason } ==> exists|a: Seq<char>|
            slot_words(outcome) == #[trigger] (a + one_lined(reason@)),
        outcome matches SlotOutcome::Ran { outcome: ended, duration_ms, log: None } ==> slot_words(
            outcome,
        ) == "ran — "@ + ended_phrase(ended) + " in "@ + dec(duration_ms as nat) + " ms"@,
        outcome matches SlotOutcome::Ran { outcome: ended, duration_ms, log: Some(log) }
            ==> slot_words(outcome) == "ran — "@ + ended_phrase(ended) + " in "@ + dec(
            duration_ms as nat,
        ) + " ms"@ + ", log "@ + one_lined(log@),
        ended_phrase(MaintenanceOutcome::Succeeded) == "succeeded"@,
        ended_phrase(MaintenanceOutcome::TimedOut) == "timed out"@,
{
    reveal_strlit("");
    match outcome {
        SlotOutcome::NotDue { last_maintained } => {
            assert(slot_words(outcome) == "not due, last maintained "@ + one_lined(
                last_maintained@,
            ));
        },
        SlotOutcome::InUse { session } => {
            assert(slot_words(outcome) == "kept: session "@ + one_lined(session@)
                + " is working in it"@);
        },
        SlotOutcome::Unavailable { holder } => {
            assert(slot_words(outcome) == "kept: busy — "@ + one_lined(holder@));
        },
        SlotOutcome::Broken { reason } => {
            assert(slot_words(outcome) == "kept: broken — "@ + one_lined(reason@));
        },
        SlotOutcome::Ran { outcome: ended, duration_ms, log } => {
            let plain = "ran — "@ + ended_phrase(ended) + " in "@ + dec(duration_ms as nat)
                + " ms"@;
            assert(plain + ""@ =~= plain);
            if log is Some {
                assert(plain + (", log "@ + one_lined(log->0@)) =~= plain + ", log "@ + one_lined(
                    log->0@,
                ));
            }
        },
    }
}

/// What an identity comes to: the refusal of its cadence, on the default one, where it
/// resolved to none; otherwise, on its own cadence, the first answer reported for it, or
/// why there is none.
pub proof fn law_what_an_identity_comes_to(
    r: Maintained,
    config: MaintenanceConfig,
    identity: String,
    every: Result<Span, String>,
    answered: Result<Vec<IdentityOutcome>, String>,
)
    requires
        came_to(r, config, identity, every, answered),
    ensures
        r.identity == identity,
        every matches Err(why) ==> r.every == config.default.every && r.outcome == Err::<
            IdentityOutcome,
            String,
        >(why),
        every matches Ok(span) ==> r.every == span,
        every is Ok && answered is Err ==> r.outcome == Err::<IdentityOutcome, String>(
            answered->Err_0,
        ),
        every is Ok && answered is Ok && answered->Ok_0@.len() > 0 ==> r.outcome == Ok::<
            IdentityOutcome,
            String,
        >(answered->Ok_0@[0]),
        every is Ok && answered is Ok && answered->Ok_0@.len() == 0 ==> r.outcome is Err,
{
}

/// What the record holds for an identity: its key, its cadence, and its outcome as it was
/// serialized, or why there is none to hold.
pub proof fn law_what_a_record_holds_for_an_identity(
    fields: Seq<(String, Json)>,
    one: Maintained,
    written: Result<Json, String>,
)
    requires
        entered(fields, one, written),
    ensures
        fields.len() == 3,
        fields[0].0@ == "identity"@ && fields[0].1 is Text && fields[0].1->Text_0@ == one.identity@,
        fields[1].0@ == "every"@ && fields[1].1 is Text && fields[1].1->Text_0@
            == one.every.spelled@,
        one.outcome is Ok && written is Ok ==> fields[2].0@ == "outcome"@ && fields[2].1
            == written->Ok_0,
        one.outcome is Err ==> fields[2].0@ == "error"@ && fields[2].1 is Text
            && fields[2].1->Text_0@ == bound(one.outcome->Err_0@),
        one.outcome is Ok && written is Err ==> fields[2].0@ == "error"@ && fields[2].1 is Text,
{
    let two = fields.take(2);
    assert(two[0] == fields[0] && two[1] == fields[1]);
    assert(two[0].0@ == "identity"@);
    assert(two[1].0@ == "every"@);
}

/// A sweep's record reads back key by key: a key that is missing, or holds something else,
/// reads as absent, and the entries stand in their order.
pub proof fn law_a_sweeps_record_reads_back(
    record: SweepRecord,
    payload: Seq<(String, Json)>,
    outcomes: Seq<Option<IdentityOutcome>>,
    list: Vec<Json>,
    i: int,
)
    requires
        record_read_as(record, payload, outcomes),
        field_in(payload, "identities"@) == Some(Json::List(list)),
        0 <= i < list@.len(),
    ensures
        record.identities@.len() == list@.len(),
        text_of(record.started_at) == json::text_in(field_in(payload, "started_at"@)),
        text_of(record.error) == json::text_in(field_in(payload, "error"@)),
        list@[i] matches Json::Object(fields) ==> {
            let entry = record.identities@[i];
            &&& text_of(entry.identity) == json::text_in(field_in(fields@, "identity"@))
            &&& text_of(entry.every) == json::text_in(field_in(fields@, "every"@))
            &&& text_of(entry.error) == json::text_in(field_in(fields@, "error"@))
            &&& entry.outcome is Some <==> field_in(fields@, "outcome"@) is Some
            &&& entry.outcome is Some && i < outcomes.len() ==> entry.outcome->0 == outcomes[i]
        },
{
    let entry = record.identities@[i];
    assert(read_as(
        entry,
        list@[i],
        if i < outcomes.len() {
            outcomes[i]
        } else {
            None
        },
    ));
}

/// How an identity is told: that it has nothing to run, or no slots, or who has it, or each
/// of its slots by its number and in order.
pub proof fn law_how_an_identity_is_told(outcome: IdentityOutcome, entry: SweepEntry)
    ensures
        outcome is NoMaintainCommand ==> identity_words(outcome) == "no maintain command"@,
        outcome is NoSlots ==> identity_words(outcome) == "no slots"@,
        outcome matches IdentityOutcome::Claimed { by_pid } ==> identity_words(outcome)
            == "claimed — another pool maintain (pid "@ + dec(by_pid as nat)
            + ") was maintaining it"@,
        outcome matches IdentityOutcome::Slots(slots) ==> identity_words(outcome) == join(
            slots_words(slots@),
            "; "@,
        ) && slots_words(slots@).len() == slots@.len() && forall|i: int|
            0 <= i < slots@.len() ==> #[trigger] slots_words(slots@)[i] == "slot "@ + dec(
                slots@[i].number as nat,
            ) + " "@ + slot_words(slots@[i].outcome),
        entry.error matches Some(error) ==> entry_words(entry) == "failed — "@ + one_lined(error@),
        entry.error is None && entry.outcome is None ==> entry_words(entry)
            == "no outcome recorded"@,
        entry.error is None && entry.outcome == Some(Some(outcome)) ==> entry_words(entry)
            == identity_words(outcome),
        entry.error is None && entry.outcome == Some(None::<IdentityOutcome>) ==> entry_words(entry)
            == "an outcome this build does not read"@,
{
}

/// `results` speaks of a sweep only where one is recorded, and then of every identity it
/// names, in order.
pub proof fn law_when_results_speak_of_a_sweep(
    record: Option<SweepRecord>,
    entries: Seq<SweepEntry>,
    one: SweepEntry,
)
    ensures
        record is None ==> results_words(record).len() == 0,
        record matches Some(record) ==> exists|a: Seq<char>|
            results_words(Some(record)) == #[trigger] (a + entry_lines(record.identities@)),
        entry_lines(Seq::empty()).len() == 0,
        entry_lines(entries.push(one)) == entry_lines(entries) + entry_line(one),
{
    reveal_strlit("");
    assert(entries.push(one).drop_last() =~= entries);
    if record is Some {
        let held = record->0;
        let opening = "  pool maintenance: last sweep that did something started "@ + said_or(
            held.started_at,
            "at an unrecorded time"@,
        ) + "\n"@;
        let enumerated = match held.error {
            Some(error) => opening
                + "      the host's identities could not be enumerated: "@ + one_lined(error@)
                + "\n"@,
            None => opening,
        };
        assert(results_words(record) == enumerated + entry_lines(held.identities@));
    }
}

} // verus!
