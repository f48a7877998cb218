//! The shared event-filter grammar, and this library's two uses of it.
//!
//! One grammar across the stack: two lists of matchers over `source`, a `kind`
//! glob on the kebab-case wire string, and the reserved labels `run_id`, `node`,
//! `step`, `member`, `persona`. A **source filter** decides what enters a run's
//! merged store; a **profile** shapes what one reader is shown and never touches
//! the store.
use vstd::prelude::*;

use crate::error::Error;
use crate::event::{Envelope, Labels, LabelsModel, Source};
use crate::glob;
use crate::glob::globs;
use crate::json;
use crate::json::{field_in, rendered, Json, JsonModel};
use crate::plan::copy_text;
use crate::record;
use crate::text;
use crate::text::{blank, dec, join, precedes, text_of, texts};

verus! {

/// The profile a reader reads through when a caller names none.
pub const DEFAULT_PROFILE: &'static str = "planner";

/// The profile that shows the detailed activity the default one leaves out.
pub const MONITOR_PROFILE: &'static str = "monitor";

/// The matcher fields the grammar has, for the refusal that names them.
pub const MATCHER_FIELDS: &'static str =
    "`source`, `kind`, `run_id`, `node`, `step`, `member`, `persona`";

/// The list of matchers an envelope satisfies one of to pass.
pub const ALLOW_LIST: &'static str = "include";

/// The list of matchers that reject.
pub const EXCLUDE_LIST: &'static str = "exclude";

/// One matcher: every field it names must hold of an envelope, and a field it
/// does not name is not consulted.
#[derive(Debug, PartialEq, Eq)]
pub struct Matcher {
    /// The producing library, by exact equality.
    pub source: Option<Source>,
    /// A glob over the kind's wire string.
    pub kind: Option<String>,
    /// The `run_id` label, by exact equality.
    pub run_id: Option<String>,
    /// The `node` label, by exact equality.
    pub node: Option<String>,
    /// The `step` label, by exact equality.
    pub step: Option<String>,
    /// The `member` label, by exact equality.
    pub member: Option<String>,
    /// The `persona` label, by exact equality.
    pub persona: Option<String>,
}

/// A matcher as contracts speak of it.
#[verifier::ext_equal]
pub struct MatcherModel {
    pub source: Option<Source>,
    pub kind: Option<Seq<char>>,
    pub run_id: Option<Seq<char>>,
    pub node: Option<Seq<char>>,
    pub step: Option<Seq<char>>,
    pub member: Option<Seq<char>>,
    pub persona: Option<Seq<char>>,
}

/// Which envelopes a consumer of a stream is shown.
#[derive(Debug, PartialEq, Eq)]
pub struct EventFilter {
    /// Matchers an envelope satisfies one of to pass; none admits every envelope.
    pub allow: Vec<Matcher>,
    /// Matchers that reject, whatever the other list said.
    pub exclude: Vec<Matcher>,
}

/// A filter as contracts speak of it.
#[verifier::ext_equal]
pub struct FilterModel {
    pub allow: Seq<MatcherModel>,
    pub exclude: Seq<MatcherModel>,
}

impl View for Matcher {
    type V = MatcherModel;

    open spec fn view(&self) -> MatcherModel {
        MatcherModel {
            source: self.source,
            kind: text_of(self.kind),
            run_id: text_of(self.run_id),
            node: text_of(self.node),
            step: text_of(self.step),
            member: text_of(self.member),
            persona: text_of(self.persona),
        }
    }
}

/// The matchers of a list, as contracts speak of them.
pub open spec fn matcher_models(list: Seq<Matcher>) -> Seq<MatcherModel> {
    list.map_values(|m: Matcher| m@)
}

impl View for EventFilter {
    type V = FilterModel;

    open spec fn view(&self) -> FilterModel {
        FilterModel {
            allow: matcher_models(self.allow@),
            exclude: matcher_models(self.exclude@),
        }
    }
}

/// A matcher that names nothing.
pub open spec fn unasking() -> MatcherModel {
    MatcherModel {
        source: None,
        kind: None,
        run_id: None,
        node: None,
        step: None,
        member: None,
        persona: None,
    }
}

impl Default for Matcher {
    fn default() -> (r: Self)
        ensures
            r@ == unasking(),
    {
        Matcher {
            source: None,
            kind: None,
            run_id: None,
            node: None,
            step: None,
            member: None,
            persona: None,
        }
    }
}

impl Clone for Matcher {
    fn clone(&self) -> (r: Self)
        ensures
            r@ == self@,
            r == *self,
    {
        Matcher {
            source: self.source,
            kind: copy_text(&self.kind),
            run_id: copy_text(&self.run_id),
            node: copy_text(&self.node),
            step: copy_text(&self.step),
            member: copy_text(&self.member),
            persona: copy_text(&self.persona),
        }
    }
}

impl Default for EventFilter {
    fn default() -> (r: Self)
        ensures
            r@ == (FilterModel { allow: Seq::empty(), exclude: Seq::empty() }),
    {
        let r = EventFilter { allow: Vec::new(), exclude: Vec::new() };
        assert(r@ =~= (FilterModel { allow: Seq::empty(), exclude: Seq::empty() }));
        r
    }
}

fn copy_matchers(list: &Vec<Matcher>) -> (r: Vec<Matcher>)
    ensures
        r@ == list@,
{
    let mut out: Vec<Matcher> = Vec::new();
    let mut i: usize = 0;
    while i < list.len()
        invariant
            i <= list@.len(),
            out@ == list@.take(i as int),
        decreases list@.len() - i,
    {
        out.push(list[i].clone());
        i += 1;
        assert(out@ =~= list@.take(i as int));
    }
    assert(out@ =~= list@);
    out
}

impl Clone for EventFilter {
    fn clone(&self) -> (r: Self)
        ensures
            r@ == self@,
    {
        EventFilter { allow: copy_matchers(&self.allow), exclude: copy_matchers(&self.exclude) }
    }
}

/// What the first extra of a name says as a label: its text, or nothing where it
/// is not a string. An extra that is not a string is no label value.
pub open spec fn extra_label(
    extra: Seq<(Seq<char>, JsonModel)>,
    name: Seq<char>,
    from: int,
) -> Option<Seq<char>>
    decreases extra.len() - from,
{
    if from < 0 || from >= extra.len() {
        None
    } else if extra[from].0 == name {
        match extra[from].1 {
            JsonModel::Text(value) => Some(value),
            _ => None,
        }
    } else {
        extra_label(extra, name, from + 1)
    }
}

/// What the first extra of a name says as a label.
pub fn extra_of<'a>(labels: &'a Labels, name: &str) -> (r: Option<&'a String>)
    ensures
        match r {
            Some(value) => extra_label(labels@.extra, name@, 0) == Some(value@),
            None => extra_label(labels@.extra, name@, 0) is None,
        },
{
    let list = &labels.extra;
    let ghost model = labels@.extra;
    let mut i: usize = 0;
    while i < list.len()
        invariant
            list == &labels.extra,
            model == labels@.extra,
            i <= list@.len(),
            extra_label(model, name@, 0) == extra_label(model, name@, i as int),
        decreases list@.len() - i,
    {
        assert(model[i as int] == (list@[i as int].0@, list@[i as int].1@));
        if text::same(list[i].0.as_str(), name) {
            return match &list[i].1 {
                Json::Text(value) => Some(value),
                _ => None,
            };
        }
        i += 1;
    }
    None
}

/// What an envelope carries under one reserved label key: the typed slot, or —
/// where that is unset — the same key among the extras.
pub open spec fn carried(
    labels: LabelsModel,
    name: Seq<char>,
    typed: Option<Seq<char>>,
) -> Option<Seq<char>> {
    if typed is Some {
        typed
    } else {
        extra_label(labels.extra, name, 0)
    }
}

/// A label a matcher asks for is one the envelope carries; one it does not ask for
/// is not consulted.
pub open spec fn label_holds(asked: Option<Seq<char>>, carried: Option<Seq<char>>) -> bool {
    asked is Some ==> carried == asked
}

/// Every field a matcher names holds of an envelope.
pub open spec fn holds_of(
    m: MatcherModel,
    source: Source,
    kind: Seq<char>,
    labels: LabelsModel,
) -> bool {
    &&& m.source is Some ==> m.source == Some(source)
    &&& m.kind is Some ==> globs(m.kind->0, kind)
    &&& label_holds(m.run_id, carried(labels, "run_id"@, labels.run_id))
    &&& label_holds(m.node, carried(labels, "node"@, labels.node))
    &&& label_holds(m.step, carried(labels, "step"@, labels.step))
    &&& label_holds(m.member, carried(labels, "member"@, None))
    &&& label_holds(m.persona, carried(labels, "persona"@, labels.persona))
}

/// Some matcher of a list holds of an envelope.
pub open spec fn any_holds(
    list: Seq<MatcherModel>,
    source: Source,
    kind: Seq<char>,
    labels: LabelsModel,
) -> bool {
    exists|i: int| 0 <= i < list.len() && holds_of(#[trigger] list[i], source, kind, labels)
}

/// An envelope reaches a consumer reading through a filter: no matcher excludes
/// it, and one admits it where any is named.
pub open spec fn passes(
    f: FilterModel,
    source: Source,
    kind: Seq<char>,
    labels: LabelsModel,
) -> bool {
    &&& !any_holds(f.exclude, source, kind, labels)
    &&& f.allow.len() == 0 || any_holds(f.allow, source, kind, labels)
}

/// Whether the label an envelope carries is the one asked for.
fn stamped(labels: &Labels, name: &str, typed: &Option<String>, asked: &Option<String>) -> (r: bool)
    ensures
        r == label_holds(text_of(*asked), carried(labels@, name@, text_of(*typed))),
{
    let asked: &String = match asked {
        Some(asked) => asked,
        None => {
            return true;
        },
    };
    if let Some(typed) = typed {
        return text::same(typed.as_str(), asked.as_str());
    }
    match extra_of(labels, name) {
        Some(value) => text::same(value.as_str(), asked.as_str()),
        None => false,
    }
}

/// The first named field of a matcher, in the grammar's own order, that is empty.
pub open spec fn empty_field(m: MatcherModel) -> Option<Seq<char>> {
    if m.kind is Some && blank(m.kind->0) {
        Some("kind"@)
    } else if m.run_id is Some && blank(m.run_id->0) {
        Some("run_id"@)
    } else if m.node is Some && blank(m.node->0) {
        Some("node"@)
    } else if m.step is Some && blank(m.step->0) {
        Some("step"@)
    } else if m.member is Some && blank(m.member->0) {
        Some("member"@)
    } else if m.persona is Some && blank(m.persona->0) {
        Some("persona"@)
    } else {
        None
    }
}

/// What is wrong with one matcher: a field that is empty matches nothing, and a
/// matcher that names no field matches everything.
pub open spec fn matcher_fault(m: MatcherModel) -> Option<Seq<char>> {
    match empty_field(m) {
        Some(field) => Some(
            "`"@ + field + "` is empty, and nothing on the stream carries an empty "@ + field
                + " — omit the field to leave it unasked"@,
        ),
        None => if m == unasking() {
            Some(
                "a matcher naming no field matches every event — name at least one of "@
                    + MATCHER_FIELDS@,
            )
        } else {
            None
        },
    }
}

fn asks_nothing(field: &Option<String>) -> (r: bool)
    ensures
        r == (text_of(*field) is Some && blank(text_of(*field)->0)),
{
    match field {
        Some(field) => text::is_blank(field.as_str()),
        None => false,
    }
}

impl Matcher {
    /// Whether every field this matcher names holds of the envelope.
    pub fn matches(&self, source: Source, kind: &str, labels: &Labels) -> (r: bool)
        ensures
            r == holds_of(self@, source, kind@, labels@),
    {
        if let Some(named) = self.source {
            if named != source {
                return false;
            }
        }
        if let Some(pattern) = &self.kind {
            if !glob::glob(pattern.as_str(), kind) {
                return false;
            }
        }
        stamped(labels, "run_id", &labels.run_id, &self.run_id) && stamped(
            labels,
            "node",
            &labels.node,
            &self.node,
        ) && stamped(labels, "step", &labels.step, &self.step) && stamped(
            labels,
            "member",
            &None,
            &self.member,
        ) && stamped(labels, "persona", &labels.persona, &self.persona)
    }

    /// Whether this matcher could match anything, or why not.
    pub fn check(&self) -> (r: Result<(), String>)
        ensures
            match r {
                Ok(()) => matcher_fault(self@) is None,
                Err(why) => matcher_fault(self@) == Some(why@),
            },
    {
        let empty: Option<&str> = if asks_nothing(&self.kind) {
            Some("kind")
        } else if asks_nothing(&self.run_id) {
            Some("run_id")
        } else if asks_nothing(&self.node) {
            Some("node")
        } else if asks_nothing(&self.step) {
            Some("step")
        } else if asks_nothing(&self.member) {
            Some("member")
        } else if asks_nothing(&self.persona) {
            Some("persona")
        } else {
            None
        };
        if let Some(field) = empty {
            let mut why: String = String::from_str("`");
            why.append(field);
            why.append("` is empty, and nothing on the stream carries an empty ");
            why.append(field);
            why.append(" — omit the field to leave it unasked");
            return Err(why);
        }
        if self.source.is_none() && self.kind.is_none() && self.run_id.is_none()
            && self.node.is_none() && self.step.is_none() && self.member.is_none()
            && self.persona.is_none() {
            let mut why: String = String::from_str(
                "a matcher naming no field matches every event — name at least one of ",
            );
            why.append(MATCHER_FIELDS);
            return Err(why);
        }
        Ok(())
    }
}

fn any_matches(list: &Vec<Matcher>, source: Source, kind: &str, labels: &Labels) -> (r: bool)
    ensures
        r == any_holds(matcher_models(list@), source, kind@, labels@),
{
    let mut i: usize = 0;
    while i < list.len()
        invariant
            i <= list@.len(),
            forall|j: int|
                0 <= j < i ==> !holds_of(
                    #[trigger] matcher_models(list@)[j],
                    source,
                    kind@,
                    labels@,
                ),
        decreases list@.len() - i,
    {
        assert(matcher_models(list@)[i as int] == list@[i as int]@);
        if list[i].matches(source, kind, labels) {
            return true;
        }
        i += 1;
    }
    false
}

/// What a matcher of a list is called.
pub open spec fn matcher_named(list: Seq<char>, position: nat) -> Seq<char> {
    "the event filter's "@ + list + " matcher "@ + dec(position)
}

/// The first matcher of a list that could not be honoured.
pub open spec fn list_fault(
    list: Seq<char>,
    matchers: Seq<MatcherModel>,
    from: int,
) -> Option<Seq<char>>
    decreases matchers.len() - from,
{
    if from < 0 || from >= matchers.len() {
        None
    } else {
        match matcher_fault(matchers[from]) {
            Some(why) => Some(matcher_named(list, (from + 1) as nat) + ": "@ + why),
            None => list_fault(list, matchers, from + 1),
        }
    }
}

/// What is wrong with a filter: the first matcher of either list that could not
/// be honoured.
pub open spec fn filter_fault(f: FilterModel) -> Option<Seq<char>> {
    match list_fault(ALLOW_LIST@, f.allow, 0) {
        Some(why) => Some(why),
        None => list_fault(EXCLUDE_LIST@, f.exclude, 0),
    }
}

fn name_matcher(list: &str, position: usize) -> (r: String)
    ensures
        r@ == matcher_named(list@, position as nat),
{
    let mut out: String = String::from_str("the event filter's ");
    out.append(list);
    out.append(" matcher ");
    text::push_dec(&mut out, position as u64);
    out
}

fn check_list(list: &str, matchers: &Vec<Matcher>) -> (r: Result<(), String>)
    ensures
        match r {
            Ok(()) => list_fault(list@, matcher_models(matchers@), 0) is None,
            Err(why) => list_fault(list@, matcher_models(matchers@), 0) == Some(why@),
        },
{
    let ghost model = matcher_models(matchers@);
    let mut i: usize = 0;
    while i < matchers.len()
        invariant
            i <= matchers@.len(),
            model == matcher_models(matchers@),
            list_fault(list@, model, 0) == list_fault(list@, model, i as int),
        decreases matchers@.len() - i,
    {
        assert(model[i as int] == matchers@[i as int]@);
        if let Err(fault) = matchers[i].check() {
            let mut why = name_matcher(list, i + 1);
            why.append(": ");
            why.append(fault.as_str());
            return Err(why);
        }
        i += 1;
    }
    Ok(())
}

impl EventFilter {
    /// Whether an envelope reaches a consumer reading through this filter.
    pub fn matches(&self, envelope: &Envelope) -> (r: bool)
        ensures
            r == passes(self@, envelope.source, envelope.kind.0@, envelope.labels@),
    {
        self.allows(envelope.source, envelope.kind.0.as_str(), &envelope.labels)
    }

    /// Whether an event reaches a consumer reading through this filter: a matcher
    /// that excludes wins over one that admits, and naming none to allow admits
    /// everything.
    pub fn allows(&self, source: Source, kind: &str, labels: &Labels) -> (r: bool)
        ensures
            r == passes(self@, source, kind@, labels@),
    {
        if any_matches(&self.exclude, source, kind, labels) {
            return false;
        }
        self.allow.len() == 0 || any_matches(&self.allow, source, kind, labels)
    }

    /// Whether every matcher in this filter could match anything, naming the one
    /// that could not.
    pub fn validate(&self) -> (r: Result<(), Error>)
        ensures
            match r {
                Ok(()) => filter_fault(self@) is None,
                Err(Error::Invalid(why)) => filter_fault(self@) == Some(why@),
                Err(_) => false,
            },
    {
        if let Err(why) = check_list(ALLOW_LIST, &self.allow) {
            return Err(Error::Invalid(why));
        }
        if let Err(why) = check_list(EXCLUDE_LIST, &self.exclude) {
            return Err(Error::Invalid(why));
        }
        Ok(())
    }
}

/// Excluding wins: an envelope some matcher excludes reaches nobody, whatever
/// admits it.
pub proof fn law_excluding_wins(
    f: FilterModel,
    source: Source,
    kind: Seq<char>,
    labels: LabelsModel,
)
    requires
        any_holds(f.exclude, source, kind, labels),
    ensures
        !passes(f, source, kind, labels),
{
}

/// A filter that names nothing admits everything.
pub proof fn law_an_empty_filter_admits_everything(
    source: Source,
    kind: Seq<char>,
    labels: LabelsModel,
)
    ensures
        passes(
            FilterModel { allow: Seq::empty(), exclude: Seq::empty() },
            source,
            kind,
            labels,
        ),
{
}

/// A matcher naming a label the envelope did not stamp does not match it.
pub proof fn law_an_unstamped_label_matches_nothing(
    m: MatcherModel,
    source: Source,
    kind: Seq<char>,
    labels: LabelsModel,
)
    ensures
        m.run_id is Some && carried(labels, "run_id"@, labels.run_id) is None ==> !holds_of(
            m,
            source,
            kind,
            labels,
        ),
        m.node is Some && carried(labels, "node"@, labels.node) is None ==> !holds_of(
            m,
            source,
            kind,
            labels,
        ),
        m.step is Some && carried(labels, "step"@, labels.step) is None ==> !holds_of(
            m,
            source,
            kind,
            labels,
        ),
        m.member is Some && carried(labels, "member"@, None) is None ==> !holds_of(
            m,
            source,
            kind,
            labels,
        ),
        m.persona is Some && carried(labels, "persona"@, labels.persona) is None ==> !holds_of(
            m,
            source,
            kind,
            labels,
        ),
{
}

/// An extra that is not a string is no label value: it is carried as nothing, so a
/// matcher that asks for its name does not match it.
pub proof fn law_an_extra_that_is_no_string_matches_nothing(
    labels: LabelsModel,
    name: Seq<char>,
    i: int,
    asked: Seq<char>,
)
    requires
        0 <= i < labels.extra.len(),
        labels.extra[i].0 == name,
        forall|j: int| 0 <= j < i ==> (#[trigger] labels.extra[j]).0 != name,
        !(labels.extra[i].1 is Text),
    ensures
        carried(labels, name, None) is None,
        !label_holds(Some(asked), carried(labels, name, None)),
{
    lemma_first_extra(labels.extra, name, 0, i);
}

proof fn lemma_first_extra(
    extra: Seq<(Seq<char>, JsonModel)>,
    name: Seq<char>,
    from: int,
    i: int,
)
    requires
        0 <= from <= i < extra.len(),
        forall|j: int| from <= j < i ==> (#[trigger] extra[j]).0 != name,
    ensures
        extra_label(extra, name, from) == extra_label(extra, name, i),
    decreases i - from,
{
    if from < i {
        assert(extra[from].0 != name);
        lemma_first_extra(extra, name, from + 1, i);
    }
}

/// What Rust's `Debug` writes a string as: quoted, with what would not print
/// escaped.
pub uninterp spec fn debugged(text: Seq<char>) -> Seq<char>;

/// `format!` of a string with its `Debug`.
#[verifier::external_body]
pub(crate) fn debug_text(text: &str) -> (r: String)
    ensures
        r@ == debugged(text@),
{
    format!("{text:?}")
}

/// What a value is, for a refusal that has to say what was there instead.
pub open spec fn shape_of(value: Json) -> Seq<char> {
    match value {
        Json::Null => "nothing"@,
        Json::Bool(_) => "a boolean"@,
        Json::Count(_) | Json::Debt(_) | Json::Number(_) => "a number"@,
        Json::Text(_) => "a string"@,
        Json::List(_) => "a list"@,
        Json::Object(_) => "a mapping"@,
    }
}

/// What a value is, for a refusal that has to say what was there instead.
pub fn shape(value: &Json) -> (r: &'static str)
    ensures
        r@ == shape_of(*value),
{
    match value {
        Json::Null => "nothing",
        Json::Bool(_) => "a boolean",
        Json::Count(_) | Json::Debt(_) | Json::Number(_) => "a number",
        Json::Text(_) => "a string",
        Json::List(_) => "a list",
        Json::Object(_) => "a mapping",
    }
}

impl Source {
    /// The word a source is written as.
    pub open spec fn word(self) -> Seq<char> {
        match self {
            Source::Pipeline => "pipeline"@,
            Source::Agentgraph => "agentgraph"@,
            Source::Vcs => "vcs"@,
        }
    }

    /// The source a word stands for.
    pub open spec fn read(word: Seq<char>) -> Option<Source> {
        if word == Source::Pipeline.word() {
            Some(Source::Pipeline)
        } else if word == Source::Agentgraph.word() {
            Some(Source::Agentgraph)
        } else if word == Source::Vcs.word() {
            Some(Source::Vcs)
        } else {
            None
        }
    }

    /// The source a word stands for.
    pub fn parse(word: &str) -> (r: Option<Source>)
        ensures
            r == Source::read(word@),
    {
        if text::same(word, "pipeline") {
            Some(Source::Pipeline)
        } else if text::same(word, "agentgraph") {
            Some(Source::Agentgraph)
        } else if text::same(word, "vcs") {
            Some(Source::Vcs)
        } else {
            None
        }
    }
}

/// A field of a matcher that is compared as a string.
pub open spec fn text_field(name: Seq<char>) -> bool {
    ||| name == "kind"@
    ||| name == "run_id"@
    ||| name == "node"@
    ||| name == "step"@
    ||| name == "member"@
    ||| name == "persona"@
}

/// The families a source may name, for the refusal that names them.
pub const FAMILIES: &'static str = "`pipeline`, `agentgraph`, `vcs`";

/// What `serde_json` says of a text whose value is neither a word nor a map of one
/// entry, where the word of an enum belongs.
pub uninterp spec fn word_refusal(text: Seq<char>) -> Seq<char>;

/// `serde_json::from_value` of the value a text writes, as an enum: its refusal. Of
/// a value that is neither a string nor a map of one entry it refuses before any
/// word is looked at, so that which enum was asked for has no part in it.
#[verifier::external_body]
fn refuse_word(text: &str) -> (r: String)
    ensures
        r@ == word_refusal(text@),
{
    serde_json::from_str::<serde_json::Value>(text)
        .and_then(serde_json::from_value::<Result<(), ()>>)
        .err()
        .map(|why| why.to_string())
        .unwrap_or_default()
}

/// What `serde_json` says of a text whose value is not `null`, where nothing
/// belongs.
pub uninterp spec fn nothing_refusal(text: Seq<char>) -> Seq<char>;

/// `serde_json::from_value` of the value a text writes, as the unit: its refusal.
#[verifier::external_body]
fn refuse_nothing(text: &str) -> (r: String)
    ensures
        r@ == nothing_refusal(text@),
{
    serde_json::from_str::<serde_json::Value>(text)
        .and_then(serde_json::from_value::<()>)
        .err()
        .map(|why| why.to_string())
        .unwrap_or_default()
}

/// What a word that names no family is refused with.
pub open spec fn unknown_family(word: Seq<char>) -> Seq<char> {
    "unknown variant `"@ + word + "`, expected one of "@ + FAMILIES@
}

/// The family a value names: by its word, or as a map of that one word to nothing.
pub open spec fn source_in(value: Json) -> Result<Source, Seq<char>> {
    match value {
        Json::Text(word) => match Source::read(word@) {
            Some(source) => Ok(source),
            None => Err(unknown_family(word@)),
        },
        Json::Object(fields) if fields@.len() == 1 => match Source::read(fields@[0].0@) {
            None => Err(unknown_family(fields@[0].0@)),
            Some(source) => if fields@[0].1 is Null {
                Ok(source)
            } else {
                Err(nothing_refusal(rendered(fields@[0].1)))
            },
        },
        other => Err(word_refusal(rendered(other))),
    }
}

/// What one field of a matcher is refused with.
pub open spec fn matcher_key_fault(named: Seq<char>, field: (String, Json)) -> Option<Seq<char>> {
    if field.0@ == "source"@ {
        match source_in(field.1) {
            Ok(_) => None,
            Err(why) => Some(named + " names no source family: "@ + why),
        }
    } else if text_field(field.0@) {
        if field.1 is Text {
            None
        } else {
            Some(
                named + " matches "@ + field.0@ + " against "@ + shape_of(field.1)
                    + ", which is not a string"@,
            )
        }
    } else {
        Some(
            named + " names "@ + debugged(field.0@) + ", which is not a matcher field ("@
                + MATCHER_FIELDS@ + ")"@,
        )
    }
}

/// The first field of a matcher that is refused.
pub open spec fn matcher_keys_fault(
    named: Seq<char>,
    fields: Seq<(String, Json)>,
    from: int,
) -> Option<Seq<char>>
    decreases fields.len() - from,
{
    if from < 0 || from >= fields.len() {
        None
    } else {
        match matcher_key_fault(named, fields[from]) {
            Some(why) => Some(why),
            None => matcher_keys_fault(named, fields, from + 1),
        }
    }
}

/// What an entry of a list that should be a matcher is refused with.
pub open spec fn entry_fault(value: Json, list: Seq<char>, position: nat) -> Option<Seq<char>> {
    match value {
        Json::Object(fields) => matcher_keys_fault(matcher_named(list, position), fields@, 0),
        other => Some(
            matcher_named(list, position) + " is a mapping of matcher fields, not "@ + shape_of(
                other,
            ),
        ),
    }
}

/// A matcher after one more of its fields is read.
pub open spec fn with_field(m: MatcherModel, field: (String, Json)) -> MatcherModel {
    let value = json::text_in(Some(field.1));
    if field.0@ == "source"@ {
        MatcherModel { source: Some(source_in(field.1)->Ok_0), ..m }
    } else if field.0@ == "kind"@ {
        MatcherModel { kind: value, ..m }
    } else if field.0@ == "run_id"@ {
        MatcherModel { run_id: value, ..m }
    } else if field.0@ == "node"@ {
        MatcherModel { node: value, ..m }
    } else if field.0@ == "step"@ {
        MatcherModel { step: value, ..m }
    } else if field.0@ == "member"@ {
        MatcherModel { member: value, ..m }
    } else {
        MatcherModel { persona: value, ..m }
    }
}

/// The matcher a list of fields declares.
pub open spec fn matcher_of(fields: Seq<(String, Json)>) -> MatcherModel
    decreases fields.len(),
{
    if fields.len() == 0 {
        unasking()
    } else {
        with_field(matcher_of(fields.drop_last()), fields.last())
    }
}

fn field_text(value: &Json, named: &str, field: &str) -> (r: Result<String, String>)
    ensures
        match r {
            Ok(text) => value is Text && text@ == value->Text_0@,
            Err(why) => !(value is Text) && why@ == named@ + " matches "@ + field@ + " against "@
                + shape_of(*value) + ", which is not a string"@,
        },
{
    match value {
        Json::Text(text) => Ok(text.clone()),
        other => {
            let mut why: String = String::from_str(named);
            why.append(" matches ");
            why.append(field);
            why.append(" against ");
            why.append(shape(other));
            why.append(", which is not a string");
            Err(why)
        },
    }
}

fn family(word: &str) -> (r: Result<Source, String>)
    ensures
        match r {
            Ok(source) => Source::read(word@) == Some(source),
            Err(why) => Source::read(word@) is None && why@ == unknown_family(word@),
        },
{
    match Source::parse(word) {
        Some(source) => Ok(source),
        None => {
            let mut why: String = String::from_str("unknown variant `");
            why.append(word);
            why.append("`, expected one of ");
            why.append(FAMILIES);
            Err(why)
        },
    }
}

fn read_source(value: &Json, named: &str) -> (r: Result<Source, String>)
    ensures
        match r {
            Ok(source) => source_in(*value) is Ok && source_in(*value)->Ok_0 == source,
            Err(why) => source_in(*value) is Err && why@ == named@ + " names no source family: "@
                + source_in(*value)->Err_0,
        },
{
    let read: Result<Source, String> = match value {
        Json::Text(word) => family(word.as_str()),
        Json::Object(fields) if fields.len() == 1 => match family(fields[0].0.as_str()) {
            Err(why) => Err(why),
            Ok(source) => match &fields[0].1 {
                Json::Null => Ok(source),
                held => Err(refuse_nothing(json::render(held).as_str())),
            },
        },
        other => Err(refuse_word(json::render(other).as_str())),
    };
    match read {
        Ok(source) => Ok(source),
        Err(failure) => {
            let mut why: String = String::from_str(named);
            why.append(" names no source family: ");
            why.append(failure.as_str());
            Err(why)
        },
    }
}

/// Read one field into a matcher.
fn read_field(m: Matcher, named: &str, name: &str, value: &Json, field: Ghost<(String, Json)>) -> (r:
    Result<Matcher, String>)
    requires
        field@.0@ == name@,
        field@.1 == *value,
    ensures
        match r {
            Ok(read) => matcher_key_fault(named@, field@) is None && read@ == with_field(
                m@,
                field@,
            ),
            Err(why) => matcher_key_fault(named@, field@) == Some(why@),
        },
{
    let mut m = m;
    if text::same(name, "source") {
        match read_source(value, named) {
            Ok(source) => {
                m.source = Some(source);
            },
            Err(why) => {
                return Err(why);
            },
        }
        return Ok(m);
    }
    let kind: bool = text::same(name, "kind");
    let run_id: bool = text::same(name, "run_id");
    let node: bool = text::same(name, "node");
    let step: bool = text::same(name, "step");
    let member: bool = text::same(name, "member");
    let persona: bool = text::same(name, "persona");
    if !(kind || run_id || node || step || member || persona) {
        let spelled = debug_text(name);
        let mut why: String = String::from_str(named);
        why.append(" names ");
        why.append(spelled.as_str());
        why.append(", which is not a matcher field (");
        why.append(MATCHER_FIELDS);
        why.append(")");
        return Err(why);
    }
    let text = match field_text(value, named, name) {
        Ok(text) => text,
        Err(why) => {
            return Err(why);
        },
    };
    if kind {
        m.kind = Some(text);
    } else if run_id {
        m.run_id = Some(text);
    } else if node {
        m.node = Some(text);
    } else if step {
        m.step = Some(text);
    } else if member {
        m.member = Some(text);
    } else {
        m.persona = Some(text);
    }
    Ok(m)
}

/// One matcher of a list, or the reason it is not one.
pub fn matcher(value: &Json, list: &str, position: usize) -> (r: Result<Matcher, String>)
    ensures
        match r {
            Ok(read) => entry_fault(*value, list@, position as nat) is None && read@ == matcher_of(
                value->Object_0@,
            ),
            Err(why) => entry_fault(*value, list@, position as nat) == Some(why@),
        },
{
    let named = name_matcher(list, position);
    let fields: &Vec<(String, Json)> = match value {
        Json::Object(fields) => fields,
        other => {
            let mut why = named.clone();
            why.append(" is a mapping of matcher fields, not ");
            why.append(shape(other));
            return Err(why);
        },
    };
    let mut m = Matcher::default();
    let mut i: usize = 0;
    while i < fields.len()
        invariant
            *value == Json::Object(*fields),
            named@ == matcher_named(list@, position as nat),
            i <= fields@.len(),
            matcher_keys_fault(named@, fields@, 0) == matcher_keys_fault(
                named@,
                fields@,
                i as int,
            ),
            m@ == matcher_of(fields@.take(i as int)),
        decreases fields@.len() - i,
    {
        proof {
            assert(fields@.take(i + 1).drop_last() =~= fields@.take(i as int));
            assert(fields@.take(i + 1).last() == fields@[i as int]);
        }
        match read_field(
            m,
            named.as_str(),
            fields[i].0.as_str(),
            &fields[i].1,
            Ghost(fields@[i as int]),
        ) {
            Ok(read) => {
                m = read;
            },
            Err(why) => {
                return Err(why);
            },
        }
        i += 1;
    }
    assert(fields@.take(fields@.len() as int) =~= fields@);
    Ok(m)
}

/// The first entry of a list that is refused.
pub open spec fn entries_fault(entries: Seq<Json>, list: Seq<char>, from: int) -> Option<Seq<char>>
    decreases entries.len() - from,
{
    if from < 0 || from >= entries.len() {
        None
    } else {
        match entry_fault(entries[from], list, (from + 1) as nat) {
            Some(why) => Some(why),
            None => entries_fault(entries, list, from + 1),
        }
    }
}

/// What one of the two lists is refused with: absent is no matcher at all, and
/// present but not a list is a guess this does not make.
pub open spec fn matchers_fault(value: Option<Json>, list: Seq<char>) -> Option<Seq<char>> {
    match value {
        None => None,
        Some(Json::List(entries)) => entries_fault(entries@, list, 0),
        Some(other) => Some(
            "an event filter's `"@ + list + "` is a list of matchers, not "@ + shape_of(other),
        ),
    }
}

/// The matchers one of the two lists declares.
pub open spec fn matchers_of(value: Option<Json>) -> Seq<MatcherModel> {
    match value {
        Some(Json::List(entries)) => entries@.map_values(|e: Json| matcher_of(e->Object_0@)),
        _ => Seq::empty(),
    }
}

/// The matchers one of the two lists holds, or the reason it is not a list of
/// them.
#[verifier::loop_isolation(false)]
pub fn matchers(value: Option<&Json>, list: &str) -> (r: Result<Vec<Matcher>, String>)
    ensures
        ({
            let held = match value {
                Some(value) => Some(*value),
                None => None,
            };
            match r {
                Ok(read) => matchers_fault(held, list@) is None && matcher_models(read@)
                    == matchers_of(held),
                Err(why) => matchers_fault(held, list@) == Some(why@),
            }
        }),
{
    let mut out: Vec<Matcher> = Vec::new();
    let value: &Json = match value {
        Some(value) => value,
        None => {
            assert(matcher_models(out@) =~= Seq::<MatcherModel>::empty());
            return Ok(out);
        },
    };
    let entries: &Vec<Json> = match value {
        Json::List(entries) => entries,
        other => {
            let mut why: String = String::from_str("an event filter's `");
            why.append(list);
            why.append("` is a list of matchers, not ");
            why.append(shape(other));
            return Err(why);
        },
    };
    let ghost declared = entries@.map_values(|e: Json| matcher_of(e->Object_0@));
    let mut i: usize = 0;
    while i < entries.len()
        invariant
            i <= entries@.len(),
            *value == Json::List(*entries),
            declared == entries@.map_values(|e: Json| matcher_of(e->Object_0@)),
            entries_fault(entries@, list@, 0) == entries_fault(entries@, list@, i as int),
            matcher_models(out@) == declared.take(i as int),
        decreases entries@.len() - i,
    {
        match matcher(&entries[i], list, i + 1) {
            Ok(m) => {
                let ghost was = out@;
                out.push(m);
                assert(matcher_models(out@) =~= matcher_models(was).push(m@));
            },
            Err(why) => {
                return Err(why);
            },
        }
        i += 1;
        assert(matcher_models(out@) =~= declared.take(i as int));
    }
    assert(matcher_models(out@) =~= declared);
    Ok(out)
}

/// The first key of a filter that is neither list.
pub open spec fn stray_key(fields: Seq<(String, Json)>, from: int) -> Option<Seq<char>>
    decreases fields.len() - from,
{
    if from < 0 || from >= fields.len() {
        None
    } else if fields[from].0@ != ALLOW_LIST@ && fields[from].0@ != EXCLUDE_LIST@ {
        Some(fields[from].0@)
    } else {
        stray_key(fields, from + 1)
    }
}

/// The filter a document declares.
pub open spec fn filter_of(document: Json) -> FilterModel {
    let fields = document->Object_0@;
    FilterModel {
        allow: matchers_of(field_in(fields, ALLOW_LIST@)),
        exclude: matchers_of(field_in(fields, EXCLUDE_LIST@)),
    }
}

/// What is wrong with a document that should be a filter.
pub open spec fn document_fault(document: Json) -> Option<Seq<char>> {
    match document {
        Json::Object(fields) => {
            if stray_key(fields@, 0) is Some {
                Some(
                    "an event filter names `include` and `exclude`; "@ + debugged(
                        stray_key(fields@, 0)->0,
                    ) + " is neither"@,
                )
            } else if matchers_fault(field_in(fields@, ALLOW_LIST@), ALLOW_LIST@) is Some {
                matchers_fault(field_in(fields@, ALLOW_LIST@), ALLOW_LIST@)
            } else if matchers_fault(field_in(fields@, EXCLUDE_LIST@), EXCLUDE_LIST@) is Some {
                matchers_fault(field_in(fields@, EXCLUDE_LIST@), EXCLUDE_LIST@)
            } else {
                filter_fault(filter_of(document))
            }
        },
        other => Some(
            "an event filter is a mapping of `include` and `exclude`, not "@ + shape_of(other),
        ),
    }
}

/// The filter a document holds, or the reason it is not one.
///
/// Both refusals stand at this one boundary — a document that is not a filter, and
/// a filter that could not be honoured — because a spec arrives from a command
/// line, from a file beside a plan, and from a launch record on disk alike.
pub fn from_document(document: &Json) -> (r: Result<EventFilter, String>)
    ensures
        match r {
            Ok(filter) => document_fault(*document) is None && filter@ == filter_of(*document),
            Err(why) => document_fault(*document) == Some(why@),
        },
{
    let fields: &Vec<(String, Json)> = match document {
        Json::Object(fields) => fields,
        other => {
            let mut why: String = String::from_str(
                "an event filter is a mapping of `include` and `exclude`, not ",
            );
            why.append(shape(other));
            return Err(why);
        },
    };
    let mut i: usize = 0;
    while i < fields.len()
        invariant
            *document == Json::Object(*fields),
            i <= fields@.len(),
            stray_key(fields@, 0) == stray_key(fields@, i as int),
        decreases fields@.len() - i,
    {
        let name = fields[i].0.as_str();
        if !text::same(name, ALLOW_LIST) && !text::same(name, EXCLUDE_LIST) {
            let spelled = debug_text(name);
            let mut why: String = String::from_str(
                "an event filter names `include` and `exclude`; ",
            );
            why.append(spelled.as_str());
            why.append(" is neither");
            return Err(why);
        }
        i += 1;
    }
    let allow = match matchers(json::field(fields, ALLOW_LIST), ALLOW_LIST) {
        Ok(allow) => allow,
        Err(why) => {
            return Err(why);
        },
    };
    let exclude = match matchers(json::field(fields, EXCLUDE_LIST), EXCLUDE_LIST) {
        Ok(exclude) => exclude,
        Err(why) => {
            return Err(why);
        },
    };
    let filter = EventFilter { allow, exclude };
    match filter.validate() {
        Ok(()) => Ok(filter),
        Err(refusal) => Err(refusal.message()),
    }
}

impl EventFilter {
    /// The filter a spec holds, from what its text was read as, or the refusal that says
    /// in its reader's words why it is unusable.
    pub fn parse(read: Result<EventFilter, String>) -> (r: Result<EventFilter, Error>)
        ensures
            match read {
                Ok(filter) => r == Ok::<EventFilter, Error>(filter),
                Err(failure) => r matches Err(Error::Invalid(why)) && why@
                    == "the event filter is unusable: "@ + failure@,
            },
    {
        match read {
            Ok(filter) => Ok(filter),
            Err(failure) => {
                let mut why: String = String::from_str("the event filter is unusable: ");
                why.append(failure.as_str());
                Err(Error::Invalid(why))
            },
        }
    }

    /// Whether a spec is the document itself, inline, rather than a path to one:
    /// its first character that is not spacing is `{`.
    pub fn is_inline(spec: &str) -> (r: bool)
        ensures
            r == (text::trim_start(spec@).len() > 0 && text::trim_start(spec@)[0] == '{'),
    {
        let chars = text::chars_of(spec);
        let mut i: usize = 0;
        assert(spec@.subrange(0, spec@.len() as int) =~= spec@);
        while i < chars.len() && text::white(chars[i])
            invariant
                chars@ == spec@,
                i <= chars@.len(),
                text::trim_start(spec@) == text::trim_start(
                    spec@.subrange(i as int, spec@.len() as int),
                ),
            decreases chars@.len() - i,
        {
            proof {
                let rest = spec@.subrange(i as int, spec@.len() as int);
                assert(rest.subrange(1, rest.len() as int) =~= spec@.subrange(
                    i + 1,
                    spec@.len() as int,
                ));
            }
            i += 1;
        }
        i < chars.len() && chars[i] == '{'
    }
}

/// What one launch says about its run's events.
#[derive(Debug, PartialEq, Eq)]
pub struct Filters {
    /// What the agent-graph source relays into the merged store.
    pub agentgraph: Option<EventFilter>,
    /// What the version-control source relays into the merged store.
    pub vcs: Option<EventFilter>,
    /// Named read-time profiles, overriding the shipped ones by name.
    pub profiles: Vec<(String, EventFilter)>,
}

/// An optional filter, as contracts speak of it.
pub open spec fn filter_in(filter: Option<EventFilter>) -> Option<FilterModel> {
    match filter {
        Some(filter) => Some(filter@),
        None => None,
    }
}

/// Named profiles, as contracts speak of them.
pub open spec fn profile_models(list: Seq<(String, EventFilter)>) -> Seq<(Seq<char>, FilterModel)> {
    list.map_values(|p: (String, EventFilter)| (p.0@, p.1@))
}

/// What one launch says about its run's events, as contracts speak of it.
#[verifier::ext_equal]
pub struct FiltersModel {
    pub agentgraph: Option<FilterModel>,
    pub vcs: Option<FilterModel>,
    pub profiles: Seq<(Seq<char>, FilterModel)>,
}

impl View for Filters {
    type V = FiltersModel;

    open spec fn view(&self) -> FiltersModel {
        FiltersModel {
            agentgraph: filter_in(self.agentgraph),
            vcs: filter_in(self.vcs),
            profiles: profile_models(self.profiles@),
        }
    }
}

impl Default for Filters {
    fn default() -> (r: Self)
        ensures
            r@ == (FiltersModel { agentgraph: None, vcs: None, profiles: Seq::empty() }),
    {
        Filters { agentgraph: None, vcs: None, profiles: Vec::new() }
    }
}

/// The profile of a name in a list.
pub open spec fn profile_named(
    profiles: Seq<(Seq<char>, FilterModel)>,
    name: Seq<char>,
    from: int,
) -> Option<FilterModel>
    decreases profiles.len() - from,
{
    if from < 0 || from >= profiles.len() {
        None
    } else if profiles[from].0 == name {
        Some(profiles[from].1)
    } else {
        profile_named(profiles, name, from + 1)
    }
}

/// The shipped profile of a name: `planner` is every pipeline-level event and
/// nothing else, and `monitor` is unfiltered.
pub open spec fn shipped(name: Seq<char>) -> Option<FilterModel> {
    if name == DEFAULT_PROFILE@ {
        Some(
            FilterModel {
                allow: seq![MatcherModel { source: Some(Source::Pipeline), ..unasking() }],
                exclude: Seq::empty(),
            },
        )
    } else if name == MONITOR_PROFILE@ {
        Some(FilterModel { allow: Seq::empty(), exclude: Seq::empty() })
    } else {
        None
    }
}

/// The shipped profile of that name, before any launch override.
pub fn shipped_profile(name: &str) -> (r: Option<EventFilter>)
    ensures
        filter_in(r) == shipped(name@),
{
    if text::same(name, DEFAULT_PROFILE) {
        let mut only = Matcher::default();
        only.source = Some(Source::Pipeline);
        let mut filter = EventFilter::default();
        filter.allow.push(only);
        assert(filter@.allow =~= seq![
            MatcherModel { source: Some(Source::Pipeline), ..unasking() },
        ]);
        Some(filter)
    } else if text::same(name, MONITOR_PROFILE) {
        Some(EventFilter::default())
    } else {
        None
    }
}

/// A list of names with one more, before the first it precedes.
pub open spec fn insert_name(names: Seq<Seq<char>>, name: Seq<char>) -> Seq<Seq<char>>
    decreases names.len(),
{
    if names.len() == 0 {
        seq![name]
    } else if precedes(name, names[0]) {
        seq![name] + names
    } else {
        seq![names[0]] + insert_name(names.skip(1), name)
    }
}

/// Names in order.
pub open spec fn sorted_names(names: Seq<Seq<char>>) -> Seq<Seq<char>>
    decreases names.len(),
{
    if names.len() == 0 {
        Seq::empty()
    } else {
        insert_name(sorted_names(names.drop_last()), names.last())
    }
}

/// The names of a list of profiles.
pub open spec fn profile_names(profiles: Seq<(Seq<char>, FilterModel)>) -> Seq<Seq<char>> {
    profiles.map_values(|p: (Seq<char>, FilterModel)| p.0)
}

/// A list of names with one more, where it is not there already.
pub open spec fn with_name(names: Seq<Seq<char>>, name: Seq<char>) -> Seq<Seq<char>> {
    if names.contains(name) {
        names
    } else {
        names.push(name)
    }
}

/// Every profile a run has: its own and the shipped ones, in order.
pub open spec fn known_profiles(profiles: Seq<(Seq<char>, FilterModel)>) -> Seq<Seq<char>> {
    sorted_names(
        with_name(with_name(profile_names(profiles), DEFAULT_PROFILE@), MONITOR_PROFILE@),
    )
}

fn insert_sorted(names: &mut Vec<String>, name: String)
    ensures
        texts(final(names)@) == insert_name(texts(old(names)@), name@),
{
    let ghost before = texts(names@);
    let mut i: usize = 0;
    assert(before.take(0) + insert_name(before.skip(0), name@) =~= insert_name(before, name@)) by {
        assert(before.skip(0) =~= before);
    }
    while i < names.len() && !text::before(name.as_str(), names[i].as_str())
        invariant
            i <= names@.len(),
            before == texts(names@),
            before.take(i as int) + insert_name(before.skip(i as int), name@) == insert_name(
                before,
                name@,
            ),
        decreases names@.len() - i,
    {
        proof {
            let rest = before.skip(i as int);
            assert(rest[0] == names@[i as int]@);
            assert(rest.skip(1) =~= before.skip(i + 1));
            assert(before.take(i as int) + insert_name(rest, name@) =~= before.take(i + 1)
                + insert_name(before.skip(i + 1), name@));
        }
        i += 1;
    }
    let ghost spelled = name@;
    names.insert(i, name);
    proof {
        let rest = before.skip(i as int);
        if i < before.len() {
            assert(rest[0] == old(names)@[i as int]@);
        }
        assert(texts(names@) =~= before.take(i as int) + (seq![spelled] + rest));
        if rest.len() == 0 {
            assert(seq![spelled] + rest =~= seq![spelled]);
        }
    }
}

impl Filters {
    /// Whether this launch declared nothing at all.
    pub fn is_empty(&self) -> (r: bool)
        ensures
            r == (self@ == FiltersModel { agentgraph: None, vcs: None, profiles: Seq::empty() }),
    {
        let r: bool = self.agentgraph.is_none() && self.vcs.is_none() && self.profiles.len() == 0;
        proof {
            if r {
                assert(self@.profiles =~= Seq::empty());
            } else if self.profiles@.len() > 0 {
                assert(self@.profiles.len() > 0);
            }
        }
        r
    }

    /// The profile a reader named, or the reason there is none.
    ///
    /// A launch's own profile of that name wins over the shipped one. A name that
    /// is neither is refused, listing the ones this run has: a planner who mistyped
    /// one would otherwise be silently served the default view.
    pub fn profile(&self, name: &str) -> (r: Result<EventFilter, Error>)
        ensures
            ({
                let own = profile_named(self@.profiles, name@, 0);
                match r {
                    Ok(filter) => Some(filter@) == (if own is Some { own } else { shipped(name@) }),
                    Err(Error::Invalid(why)) => own is None && shipped(name@) is None && why@
                        == "'"@ + name@ + "' is not a filter profile of this run; it has "@ + join(
                        known_profiles(self@.profiles),
                        ", "@,
                    ),
                    Err(_) => false,
                }
            }),
    {
        let ghost model = self@.profiles;
        let mut i: usize = 0;
        while i < self.profiles.len()
            invariant
                i <= self.profiles@.len(),
                model == self@.profiles,
                profile_named(model, name@, 0) == profile_named(model, name@, i as int),
            decreases self.profiles@.len() - i,
        {
            assert(model[i as int] == (self.profiles@[i as int].0@, self.profiles@[i as int].1@));
            if text::same(self.profiles[i].0.as_str(), name) {
                return Ok(self.profiles[i].1.clone());
            }
            i += 1;
        }
        if let Some(filter) = shipped_profile(name) {
            return Ok(filter);
        }
        let known = self.known();
        let list = text::joined(&known, ", ");
        let mut why: String = String::from_str("'");
        why.append(name);
        why.append("' is not a filter profile of this run; it has ");
        why.append(list.as_str());
        Err(Error::Invalid(why))
    }

    /// Every profile this run has, in order.
    pub fn known(&self) -> (r: Vec<String>)
        ensures
            texts(r@) == known_profiles(self@.profiles),
    {
        let ghost names = profile_names(self@.profiles);
        let mut out: Vec<String> = Vec::new();
        let mut planner: bool = false;
        let mut monitor: bool = false;
        let mut i: usize = 0;
        assert(texts(out@) =~= sorted_names(names.take(0)));
        while i < self.profiles.len()
            invariant
                i <= self.profiles@.len(),
                names == profile_names(self@.profiles),
                texts(out@) == sorted_names(names.take(i as int)),
                planner == names.take(i as int).contains(DEFAULT_PROFILE@),
                monitor == names.take(i as int).contains(MONITOR_PROFILE@),
            decreases self.profiles@.len() - i,
        {
            let name = &self.profiles[i].0;
            proof {
                let more = names.take(i + 1);
                assert(more.drop_last() =~= names.take(i as int));
                assert(more.last() == name@);
                assert forall|x: Seq<char>| more.contains(x) <==> names.take(i as int).contains(x)
                    || x == name@ by {
                    if more.contains(x) {
                        let j = choose|j: int| 0 <= j < more.len() && more[j] == x;
                        if j < i {
                            assert(names.take(i as int)[j] == x);
                        }
                    }
                    if names.take(i as int).contains(x) {
                        let j = choose|j: int|
                            0 <= j < names.take(i as int).len() && names.take(i as int)[j] == x;
                        assert(more[j] == x);
                    }
                    if x == name@ {
                        assert(more[i as int] == x);
                    }
                }
            }
            if text::same(name.as_str(), DEFAULT_PROFILE) {
                planner = true;
            }
            if text::same(name.as_str(), MONITOR_PROFILE) {
                monitor = true;
            }
            insert_sorted(&mut out, name.clone());
            i += 1;
        }
        assert(names.take(names.len() as int) =~= names);
        let ghost first = with_name(names, DEFAULT_PROFILE@);
        if !planner {
            insert_sorted(&mut out, DEFAULT_PROFILE.to_owned());
            assert(first.drop_last() =~= names);
            assert(first.last() == DEFAULT_PROFILE@);
        }
        assert(texts(out@) == sorted_names(first));
        proof {
            reveal_strlit("planner");
            reveal_strlit("monitor");
            assert("planner"@[0] != "monitor"@[0]);
            assert(first.contains(MONITOR_PROFILE@) == monitor) by {
                if first.contains(MONITOR_PROFILE@) {
                    let j = choose|j: int| 0 <= j < first.len() && first[j] == MONITOR_PROFILE@;
                    assert(j < names.len());
                    assert(names[j] == MONITOR_PROFILE@);
                }
                if monitor {
                    let j = choose|j: int| 0 <= j < names.len() && names[j] == MONITOR_PROFILE@;
                    assert(first[j] == MONITOR_PROFILE@);
                }
            }
        }
        if !monitor {
            insert_sorted(&mut out, MONITOR_PROFILE.to_owned());
            assert(with_name(first, MONITOR_PROFILE@).drop_last() =~= first);
            assert(with_name(first, MONITOR_PROFILE@).last() == MONITOR_PROFILE@);
        }
        out
    }
}

/// Both shipped profiles are overridable: a launch's own profile of a name is the
/// one a reader is served.
pub proof fn law_a_launchs_own_profile_wins(
    profiles: Seq<(Seq<char>, FilterModel)>,
    name: Seq<char>,
    filter: FilterModel,
)
    ensures
        profile_named(seq![(name, filter)] + profiles, name, 0) == Some(filter),
{
    assert((seq![(name, filter)] + profiles)[0] == (name, filter));
}

/// The launch-config schema version this build writes.
pub const LAUNCH_CONFIG_SCHEMA_VERSION: u32 = 3;

/// Every launch-config version this build reads, newest first.
pub const LAUNCH_CONFIG_SCHEMA_VERSIONS_READ: [u32; 3] = [3, 2, 1];

/// A launch config: what a launch declares about its run, as one document.
///
/// Versioned and closed: an unknown key is refused by name, a key a declared
/// version never had is refused by its name, and a version this build does not
/// read is refused by its number.
#[derive(Debug, PartialEq, Eq)]
pub struct LaunchConfig {
    /// Schema version.
    pub schema_version: u32,
    /// What this launch says about its run's events.
    pub filters: Filters,
    /// The agent graph this launch drafts change request bodies with, if any.
    pub pr_author_graph: Option<String>,
    /// The command this launch checks a live-edited node with, if any.
    pub node_validator: Option<String>,
}

/// A launch config as contracts speak of it.
#[verifier::ext_equal]
pub struct LaunchModel {
    pub schema_version: u32,
    pub filters: FiltersModel,
    pub pr_author_graph: Option<Seq<char>>,
    pub node_validator: Option<Seq<char>>,
}

impl View for LaunchConfig {
    type V = LaunchModel;

    open spec fn view(&self) -> LaunchModel {
        LaunchModel {
            schema_version: self.schema_version,
            filters: self.filters@,
            pr_author_graph: text_of(self.pr_author_graph),
            node_validator: text_of(self.node_validator),
        }
    }
}

impl Default for LaunchConfig {
    fn default() -> (r: Self)
        ensures
            r@ == (LaunchModel {
                schema_version: LAUNCH_CONFIG_SCHEMA_VERSION,
                filters: FiltersModel { agentgraph: None, vcs: None, profiles: Seq::empty() },
                pr_author_graph: None,
                node_validator: None,
            }),
    {
        LaunchConfig {
            schema_version: LAUNCH_CONFIG_SCHEMA_VERSION,
            filters: Filters::default(),
            pr_author_graph: None,
            node_validator: None,
        }
    }
}

/// What a `filters` block may hold for a source: a filter, or nothing where it is absent
/// or null.
pub open spec fn is_source_filter(value: Option<Json>) -> bool {
    match value {
        None | Some(Json::Null) => true,
        Some(document) => document_fault(document) is None,
    }
}

/// The source filter a `filters` block declares.
pub open spec fn source_filter_of(value: Option<Json>) -> Option<FilterModel> {
    match value {
        None | Some(Json::Null) => None,
        Some(document) => Some(filter_of(document)),
    }
}

/// What a `filters` block may hold under `profiles`: a mapping of names to filters, or
/// nothing.
pub open spec fn are_profiles(value: Option<Json>) -> bool {
    match value {
        None => true,
        Some(Json::Object(entries)) => forall|i: int|
            0 <= i < entries@.len() ==> document_fault((#[trigger] entries@[i]).1) is None,
        Some(_) => false,
    }
}

/// The profiles a `filters` block declares.
pub open spec fn profiles_of(value: Option<Json>) -> Seq<(Seq<char>, FilterModel)> {
    match value {
        Some(Json::Object(entries)) => entries@.map_values(
            |e: (String, Json)| (e.0@, filter_of(e.1)),
        ),
        _ => Seq::empty(),
    }
}

/// A key of a `filters` block.
pub open spec fn filters_key(name: Seq<char>) -> bool {
    name == "agentgraph"@ || name == "vcs"@ || name == "profiles"@
}

/// A `filters` block; one that is absent declares nothing.
pub open spec fn are_filters(value: Option<Json>) -> bool {
    match value {
        None => true,
        Some(Json::Object(fields)) => {
            &&& forall|i: int| 0 <= i < fields@.len() ==> filters_key((#[trigger] fields@[i]).0@)
            &&& is_source_filter(field_in(fields@, "agentgraph"@))
            &&& is_source_filter(field_in(fields@, "vcs"@))
            &&& are_profiles(field_in(fields@, "profiles"@))
        },
        Some(_) => false,
    }
}

/// What a `filters` block declares.
pub open spec fn filters_of(value: Option<Json>) -> FiltersModel {
    match value {
        Some(Json::Object(fields)) => FiltersModel {
            agentgraph: source_filter_of(field_in(fields@, "agentgraph"@)),
            vcs: source_filter_of(field_in(fields@, "vcs"@)),
            profiles: profiles_of(field_in(fields@, "profiles"@)),
        },
        _ => FiltersModel { agentgraph: None, vcs: None, profiles: Seq::empty() },
    }
}

/// A value that may be absent, as contracts speak of it.
pub open spec fn held(value: Option<&Json>) -> Option<Json> {
    match value {
        Some(value) => Some(*value),
        None => None,
    }
}

fn read_source_filter(value: Option<&Json>) -> (r: Option<Option<EventFilter>>)
    ensures
        match r {
            Some(filter) => is_source_filter(held(value)) && filter_in(filter)
                == source_filter_of(held(value)),
            None => !is_source_filter(held(value)),
        },
{
    match value {
        None => Some(None),
        Some(Json::Null) => Some(None),
        Some(document) => match from_document(document) {
            Ok(filter) => Some(Some(filter)),
            Err(_) => None,
        },
    }
}

#[verifier::loop_isolation(false)]
fn read_profiles(value: Option<&Json>) -> (r: Option<Vec<(String, EventFilter)>>)
    ensures
        match r {
            Some(profiles) => are_profiles(held(value)) && profile_models(profiles@)
                == profiles_of(held(value)),
            None => !are_profiles(held(value)),
        },
{
    let mut out: Vec<(String, EventFilter)> = Vec::new();
    let document: &Json = match value {
        Some(document) => document,
        None => {
            assert(profile_models(out@) =~= Seq::empty());
            return Some(out);
        },
    };
    let entries: &Vec<(String, Json)> = match document {
        Json::Object(entries) => entries,
        _ => {
            return None;
        },
    };
    let ghost declared = profiles_of(held(value));
    let mut i: usize = 0;
    while i < entries.len()
        invariant
            i <= entries@.len(),
            forall|j: int| 0 <= j < i ==> document_fault((#[trigger] entries@[j]).1) is None,
            profile_models(out@) == declared.take(i as int),
        decreases entries@.len() - i,
    {
        match from_document(&entries[i].1) {
            Ok(filter) => {
                let ghost was = out@;
                let ghost added = (entries@[i as int].0@, filter@);
                out.push((entries[i].0.clone(), filter));
                assert(profile_models(out@) =~= profile_models(was).push(added));
            },
            Err(_) => {
                assert(document_fault(entries@[i as int].1) is Some);
                return None;
            },
        }
        i += 1;
        assert(profile_models(out@) =~= declared.take(i as int));
    }
    assert(profile_models(out@) =~= declared);
    Some(out)
}

impl Filters {
    /// The `filters` block a value is, or nothing where it is not one.
    #[verifier::loop_isolation(false)]
    pub fn read(value: Option<&Json>) -> (r: Option<Filters>)
        ensures
            match r {
                Some(filters) => are_filters(held(value)) && filters@ == filters_of(held(value)),
                None => !are_filters(held(value)),
            },
    {
        let document: &Json = match value {
            Some(document) => document,
            None => {
                return Some(Filters::default());
            },
        };
        let fields: &Vec<(String, Json)> = match document {
            Json::Object(fields) => fields,
            _ => {
                return None;
            },
        };
        let mut i: usize = 0;
        while i < fields.len()
            invariant
                i <= fields@.len(),
                forall|j: int| 0 <= j < i ==> filters_key((#[trigger] fields@[j]).0@),
            decreases fields@.len() - i,
        {
            let name = fields[i].0.as_str();
            if !text::same(name, "agentgraph") && !text::same(name, "vcs") && !text::same(
                name,
                "profiles",
            ) {
                assert(!filters_key(fields@[i as int].0@));
                return None;
            }
            i += 1;
        }
        match (
            read_source_filter(json::field(fields, "agentgraph")),
            read_source_filter(json::field(fields, "vcs")),
            read_profiles(json::field(fields, "profiles")),
        ) {
            (Some(agentgraph), Some(vcs), Some(profiles)) => Some(
                Filters { agentgraph, vcs, profiles },
            ),
            _ => None,
        }
    }
}

/// A key of a launch config.
pub open spec fn launch_key(name: Seq<char>) -> bool {
    ||| name == "schema_version"@
    ||| name == "filters"@
    ||| name == "pr_author_graph"@
    ||| name == "node_validator"@
}

/// What a key that may hold a string holds: a string, or nothing where it is absent or
/// null.
pub open spec fn is_text_key(value: Option<Json>) -> bool {
    value is None || value->0 is Null || value->0 is Text
}

/// A version this build reads.
pub open spec fn version_read(version: u32) -> bool {
    exists|i: int|
        0 <= i < LAUNCH_CONFIG_SCHEMA_VERSIONS_READ@.len()
            && #[trigger] LAUNCH_CONFIG_SCHEMA_VERSIONS_READ@[i] == version
}

/// What a key is refused with by the version the document declares, and — for a
/// key no document on disk could have left blank — by its being blank.
pub open spec fn key_version_fault(
    key: Seq<char>,
    arrived: u32,
    blank_refused: bool,
    value: Option<Seq<char>>,
    version: u32,
) -> Option<Seq<char>> {
    if value is Some && version < arrived {
        Some(
            "`"@ + key + "` is a schema "@ + dec(arrived as nat)
                + " key and this config declares schema_version "@ + dec(version as nat)
                + " — set `schema_version: 3`"@,
        )
    } else if blank_refused && value is Some && blank(value->0) {
        Some(
            "`"@ + key
                + "` is present and names nothing — give it a value, or leave the key out to declare that this launch has none"@,
        )
    } else {
        None
    }
}

/// The launch config a document declares.
pub open spec fn launch_of(document: Json) -> LaunchModel {
    let fields = document->Object_0@;
    LaunchModel {
        schema_version: json::count_in(field_in(fields, "schema_version"@))->0 as u32,
        filters: filters_of(field_in(fields, "filters"@)),
        pr_author_graph: json::text_in(field_in(fields, "pr_author_graph"@)),
        node_validator: json::text_in(field_in(fields, "node_validator"@)),
    }
}

/// A document has the shape of a launch config: a mapping that has no other key, with a
/// version that is a number of 32 bits.
pub open spec fn is_launch_config(document: Json) -> bool {
    document matches Json::Object(fields) && {
        &&& forall|i: int| 0 <= i < fields@.len() ==> launch_key((#[trigger] fields@[i]).0@)
        &&& field_in(fields@, "schema_version"@) matches Some(Json::Count(version)) && version
            <= u32::MAX
        &&& are_filters(field_in(fields@, "filters"@))
        &&& is_text_key(field_in(fields@, "pr_author_graph"@))
        &&& is_text_key(field_in(fields@, "node_validator"@))
    }
}

/// What a launch config is refused with by the version it declares: one this build
/// does not read, or a key that version never had.
pub open spec fn launch_version_fault(config: LaunchModel) -> Option<Seq<char>> {
    let version = config.schema_version;
    if !version_read(version) {
        Some(
            "launch config schema_version "@ + dec(version as nat)
                + ", and this build reads 3, 2, 1 — set `schema_version: 3`"@,
        )
    } else if key_version_fault("pr_author_graph"@, 2, false, config.pr_author_graph, version) is Some {
        key_version_fault("pr_author_graph"@, 2, false, config.pr_author_graph, version)
    } else {
        key_version_fault("node_validator"@, 3, true, config.node_validator, version)
    }
}

fn read_text_key(value: Option<&Json>) -> (r: Option<Option<String>>)
    ensures
        match r {
            Some(read) => is_text_key(held(value)) && text_of(read) == json::text_in(held(value)),
            None => !is_text_key(held(value)),
        },
{
    match value {
        None => Some(None),
        Some(Json::Null) => Some(None),
        Some(Json::Text(text)) => Some(Some(text.clone())),
        Some(_) => None,
    }
}

fn check_key(
    key: &str,
    arrived: u32,
    blank_refused: bool,
    value: &Option<String>,
    version: u32,
) -> (r: Result<(), String>)
    ensures
        ({
            let fault = key_version_fault(key@, arrived, blank_refused, text_of(*value), version);
            match r {
                Ok(()) => fault is None,
                Err(why) => fault == Some(why@),
            }
        }),
{
    let held: &String = match value {
        Some(held) => held,
        None => {
            return Ok(());
        },
    };
    if version < arrived {
        let mut why: String = String::from_str("`");
        why.append(key);
        why.append("` is a schema ");
        text::push_dec(&mut why, arrived as u64);
        why.append(" key and this config declares schema_version ");
        text::push_dec(&mut why, version as u64);
        why.append(" — set `schema_version: 3`");
        return Err(why);
    }
    if blank_refused && text::is_blank(held.as_str()) {
        let mut why: String = String::from_str("`");
        why.append(key);
        why.append(
            "` is present and names nothing — give it a value, or leave the key out to declare that this launch has none",
        );
        return Err(why);
    }
    Ok(())
}

/// Whether this build reads a version.
pub fn reads_version(version: u32) -> (r: bool)
    ensures
        r == version_read(version),
{
    let read = LAUNCH_CONFIG_SCHEMA_VERSIONS_READ;
    let mut i: usize = 0;
    while i < 3
        invariant
            read@ == LAUNCH_CONFIG_SCHEMA_VERSIONS_READ@,
            read@.len() == 3,
            i <= 3,
            forall|j: int| 0 <= j < i ==> #[trigger] LAUNCH_CONFIG_SCHEMA_VERSIONS_READ@[j] != version,
        decreases 3 - i,
    {
        if read[i] == version {
            assert(LAUNCH_CONFIG_SCHEMA_VERSIONS_READ@[i as int] == version);
            return true;
        }
        i += 1;
    }
    false
}

impl LaunchConfig {
    /// Whether what this config carries is what its declared version may carry.
    pub fn check_versions(&self) -> (r: Result<(), String>)
        ensures
            match r {
                Ok(()) => launch_version_fault(self@) is None,
                Err(why) => launch_version_fault(self@) == Some(why@),
            },
    {
        let version: u32 = self.schema_version;
        if !reads_version(version) {
            let mut why: String = String::from_str("launch config schema_version ");
            text::push_dec(&mut why, version as u64);
            why.append(", and this build reads 3, 2, 1 — set `schema_version: 3`");
            return Err(why);
        }
        if let Err(why) = check_key("pr_author_graph", 2, false, &self.pr_author_graph, version) {
            return Err(why);
        }
        check_key("node_validator", 3, true, &self.node_validator, version)
    }

    /// The launch config a document is, at whatever version it declares, or nothing where
    /// it is not one.
    #[verifier::loop_isolation(false)]
    pub fn read(document: &Json) -> (r: Option<Self>)
        ensures
            match r {
                Some(config) => is_launch_config(*document) && config@ == launch_of(*document),
                None => !is_launch_config(*document),
            },
    {
        let fields: &Vec<(String, Json)> = match document {
            Json::Object(fields) => fields,
            _ => {
                return None;
            },
        };
        let mut i: usize = 0;
        while i < fields.len()
            invariant
                i <= fields@.len(),
                forall|j: int| 0 <= j < i ==> launch_key((#[trigger] fields@[j]).0@),
            decreases fields@.len() - i,
        {
            let name = fields[i].0.as_str();
            if !text::same(name, "schema_version") && !text::same(name, "filters") && !text::same(
                name,
                "pr_author_graph",
            ) && !text::same(name, "node_validator") {
                assert(!launch_key(fields@[i as int].0@));
                return None;
            }
            i += 1;
        }
        let schema_version: u32 = match json::field(fields, "schema_version") {
            Some(Json::Count(version)) => {
                if *version > u32::MAX as u64 {
                    return None;
                }
                *version as u32
            },
            _ => {
                return None;
            },
        };
        match (
            Filters::read(json::field(fields, "filters")),
            read_text_key(json::field(fields, "pr_author_graph")),
            read_text_key(json::field(fields, "node_validator")),
        ) {
            (Some(filters), Some(pr_author_graph), Some(node_validator)) => Some(
                LaunchConfig { schema_version, filters, pr_author_graph, node_validator },
            ),
            _ => None,
        }
    }

    /// The launch config a file holds, from what its text was read as: refused in its
    /// reader's words where it was not read, and by the version it declares where that
    /// version is not read or never had a key it carries.
    ///
    /// A file an operator wrote, refused at the one place it can be refused before
    /// a run exists, and always by the path it was read from.
    pub fn load(path: &str, read: Result<LaunchConfig, String>) -> (r: Result<Self, Error>)
        ensures
            ({
                let fault = match read {
                    Err(failure) => Some(failure@),
                    Ok(config) => launch_version_fault(config@),
                };
                match fault {
                    None => r == Ok::<LaunchConfig, Error>(read->Ok_0),
                    Some(why) => r matches Err(Error::Invalid(said)) && said@ == path@ + ": "@
                        + why,
                }
            }),
    {
        let why: String = match read {
            Err(why) => why,
            Ok(config) => match config.check_versions() {
                Ok(()) => {
                    return Ok(config);
                },
                Err(why) => why,
            },
        };
        let mut out: String = String::from_str(path);
        out.append(": ");
        out.append(why.as_str());
        Err(Error::Invalid(out))
    }
}

/// An earlier config is a complete document: one that names no later key is read
/// at every version this build reads.
pub proof fn law_an_earlier_config_is_complete(config: LaunchModel)
    requires
        config.pr_author_graph is None,
        config.node_validator is None,
        version_read(config.schema_version),
    ensures
        launch_version_fault(config) is None,
{
}

/// A bump that adds an unrelated key refuses no earlier one: the drafting graph is
/// accepted at its own version and at every later one, whatever it holds.
pub proof fn law_a_later_version_keeps_an_earlier_key(config: LaunchModel)
    requires
        config.schema_version >= 2,
        version_read(config.schema_version),
        config.node_validator is None,
    ensures
        launch_version_fault(config) is None,
{
}

/// The names of a matcher's fields are told apart.
proof fn lemma_matcher_names()
    ensures
        "source"@ != "kind"@,
        "source"@ != "run_id"@,
        "source"@ != "node"@,
        "source"@ != "step"@,
        "source"@ != "member"@,
        "source"@ != "persona"@,
        "kind"@ != "run_id"@,
        "kind"@ != "node"@,
        "kind"@ != "step"@,
        "kind"@ != "member"@,
        "kind"@ != "persona"@,
        "run_id"@ != "node"@,
        "run_id"@ != "step"@,
        "run_id"@ != "member"@,
        "run_id"@ != "persona"@,
        "node"@ != "step"@,
        "node"@ != "member"@,
        "node"@ != "persona"@,
        "step"@ != "member"@,
        "step"@ != "persona"@,
        "member"@ != "persona"@,
{
    reveal_strlit("source");
    reveal_strlit("kind");
    reveal_strlit("run_id");
    reveal_strlit("node");
    reveal_strlit("step");
    reveal_strlit("member");
    reveal_strlit("persona");
    assert("source"@[0] == 's' && "run_id"@[0] == 'r' && "member"@[0] == 'm');
    assert("kind"@[0] == 'k' && "node"@[0] == 'n' && "step"@[0] == 's');
    assert("source"@.len() == 6 && "step"@.len() == 4);
}

/// Fields none of which is refused: a matcher read from them has no fault.
spec fn well_named(fields: Seq<(String, Json)>) -> bool {
    forall|i: int, named: Seq<char>|
        0 <= i < fields.len() ==> #[trigger] matcher_key_fault(named, fields[i]) is None
}

proof fn lemma_well_named(named: Seq<char>, fields: Seq<(String, Json)>, from: int)
    requires
        0 <= from,
        well_named(fields),
    ensures
        matcher_keys_fault(named, fields, from) is None,
    decreases fields.len() - from,
{
    if from < fields.len() {
        assert(matcher_key_fault(named, fields[from]) is None);
        lemma_well_named(named, fields, from + 1);
    }
}

fn write_field(fields: &mut Vec<(String, Json)>, name: &str, value: &Option<String>)
    requires
        text_field(name@),
        well_named(old(fields)@),
    ensures
        well_named(final(fields)@),
        match *value {
            None => final(fields)@ == old(fields)@,
            Some(text) => matcher_of(final(fields)@) == with_named(
                matcher_of(old(fields)@),
                name@,
                text@,
            ),
        },
{
    if let Some(text) = value {
        let ghost before = fields@;
        fields.push((name.to_owned(), Json::Text(text.clone())));
        proof {
            lemma_matcher_names();
            assert(fields@.drop_last() =~= before);
            assert forall|i: int, named: Seq<char>| 0 <= i < fields@.len() implies #[trigger]
            matcher_key_fault(named, fields@[i]) is None by {
                if i < before.len() {
                    assert(fields@[i] == before[i]);
                    assert(matcher_key_fault(named, before[i]) is None);
                }
            }
        }
    }
}

/// A matcher with one of its fields that are compared as strings set.
spec fn with_named(m: MatcherModel, name: Seq<char>, text: Seq<char>) -> MatcherModel {
    if name == "kind"@ {
        MatcherModel { kind: Some(text), ..m }
    } else if name == "run_id"@ {
        MatcherModel { run_id: Some(text), ..m }
    } else if name == "node"@ {
        MatcherModel { node: Some(text), ..m }
    } else if name == "step"@ {
        MatcherModel { step: Some(text), ..m }
    } else if name == "member"@ {
        MatcherModel { member: Some(text), ..m }
    } else {
        MatcherModel { persona: Some(text), ..m }
    }
}

impl Source {
    /// The word a source is written as.
    pub fn as_str(self) -> (r: &'static str)
        ensures
            r@ == self.word(),
            Source::read(r@) == Some(self),
    {
        proof {
            reveal_strlit("pipeline");
            reveal_strlit("agentgraph");
            reveal_strlit("vcs");
            assert("pipeline"@.len() == 8 && "agentgraph"@.len() == 10 && "vcs"@.len() == 3);
        }
        match self {
            Source::Pipeline => "pipeline",
            Source::Agentgraph => "agentgraph",
            Source::Vcs => "vcs",
        }
    }
}

impl Matcher {
    /// This matcher as a document writes it: the fields it names and no other.
    pub fn to_json(&self) -> (r: Json)
        ensures
            r is Object,
            forall|list: Seq<char>, position: nat| #[trigger]
                entry_fault(r, list, position) is None,
            matcher_of(r->Object_0@) == self@,
    {
        let mut fields: Vec<(String, Json)> = Vec::new();
        if let Some(source) = self.source {
            let word = source.as_str();
            fields.push(("source".to_owned(), Json::Text(word.to_owned())));
            proof {
                assert(fields@.drop_last() =~= Seq::empty());
                assert(matcher_of(fields@.drop_last()) == unasking());
            }
        }
        let ghost m0 = MatcherModel { source: self.source, ..unasking() };
        assert(matcher_of(fields@) == m0);
        proof {
            lemma_matcher_names();
        }
        write_field(&mut fields, "kind", &self.kind);
        let ghost m1 = MatcherModel { kind: self@.kind, ..m0 };
        assert(matcher_of(fields@) == m1);
        write_field(&mut fields, "run_id", &self.run_id);
        let ghost m2 = MatcherModel { run_id: self@.run_id, ..m1 };
        assert(matcher_of(fields@) == m2);
        write_field(&mut fields, "node", &self.node);
        let ghost m3 = MatcherModel { node: self@.node, ..m2 };
        assert(matcher_of(fields@) == m3);
        write_field(&mut fields, "step", &self.step);
        let ghost m4 = MatcherModel { step: self@.step, ..m3 };
        assert(matcher_of(fields@) == m4);
        write_field(&mut fields, "member", &self.member);
        let ghost m5 = MatcherModel { member: self@.member, ..m4 };
        assert(matcher_of(fields@) == m5);
        write_field(&mut fields, "persona", &self.persona);
        assert(matcher_of(fields@) == self@);
        let r = Json::Object(fields);
        proof {
            assert forall|list: Seq<char>, position: nat| #[trigger]
                entry_fault(r, list, position) is None by {
                lemma_well_named(matcher_named(list, position), fields@, 0);
            }
        }
        r
    }
}

proof fn lemma_entries_unrefused(entries: Seq<Json>, list: Seq<char>, from: int)
    requires
        0 <= from,
        forall|i: int, position: nat|
            0 <= i < entries.len() ==> #[trigger] entry_fault(entries[i], list, position) is None,
    ensures
        entries_fault(entries, list, from) is None,
    decreases entries.len() - from,
{
    if from < entries.len() {
        assert(entry_fault(entries[from], list, (from + 1) as nat) is None);
        lemma_entries_unrefused(entries, list, from + 1);
    }
}

fn write_matchers(matchers: &Vec<Matcher>) -> (r: Json)
    ensures
        r is List,
        forall|list: Seq<char>| #[trigger] matchers_fault(Some(r), list) is None,
        matchers_of(Some(r)) == matcher_models(matchers@),
{
    let mut out: Vec<Json> = Vec::new();
    let mut i: usize = 0;
    while i < matchers.len()
        invariant
            i <= matchers@.len(),
            out@.len() == i,
            forall|j: int, list: Seq<char>, position: nat|
                0 <= j < i ==> #[trigger] entry_fault(out@[j], list, position) is None,
            forall|j: int|
                0 <= j < i ==> matcher_of((#[trigger] out@[j])->Object_0@) == matchers@[j]@,
        decreases matchers@.len() - i,
    {
        let ghost before = out@;
        let one = matchers[i].to_json();
        out.push(one);
        proof {
            assert forall|j: int, list: Seq<char>, position: nat|
                0 <= j < i + 1 implies #[trigger] entry_fault(out@[j], list, position) is None by {
                if j < i {
                    assert(out@[j] == before[j]);
                    assert(entry_fault(before[j], list, position) is None);
                } else {
                    assert(out@[j] == one);
                }
            }
        }
        i += 1;
    }
    let ghost entries = out@;
    let r = Json::List(out);
    proof {
        assert forall|list: Seq<char>| #[trigger] matchers_fault(Some(r), list) is None by {
            lemma_entries_unrefused(entries, list, 0);
        }
        assert(matchers_of(Some(r)) =~= matcher_models(matchers@));
    }
    r
}

impl EventFilter {
    /// This filter as a document writes it: a list that is empty is left out. What
    /// is written reads back as this filter, and is refused exactly where a matcher
    /// of it could not be honoured.
    pub fn to_json(&self) -> (r: Json)
        ensures
            filter_of(r) == self@,
            document_fault(r) == filter_fault(self@),
            r matches Json::Object(fields) && (field_in(fields@, ALLOW_LIST@) is None
                <==> self.allow@.len() == 0) && (field_in(fields@, EXCLUDE_LIST@) is None
                <==> self.exclude@.len() == 0),
    {
        let mut fields: Vec<(String, Json)> = Vec::new();
        let ghost start = fields@;
        proof {
            reveal_strlit("include");
            reveal_strlit("exclude");
            assert(ALLOW_LIST@[0] != EXCLUDE_LIST@[0]);
            assert(field_in(start, ALLOW_LIST@) is None);
            assert(field_in(start, EXCLUDE_LIST@) is None);
        }
        if self.allow.len() > 0 {
            let list = write_matchers(&self.allow);
            record::put(&mut fields, ALLOW_LIST, list);
        }
        if self.exclude.len() > 0 {
            let list = write_matchers(&self.exclude);
            record::put(&mut fields, EXCLUDE_LIST, list);
        }
        let ghost written = fields@;
        let r = Json::Object(fields);
        proof {
            lemma_no_stray_key(written, 0);
            assert(matcher_models(self.allow@).len() == self.allow@.len());
            assert(matcher_models(self.exclude@).len() == self.exclude@.len());
            assert(filter_of(r) =~= self@);
        }
        r
    }
}

proof fn lemma_no_stray_key(fields: Seq<(String, Json)>, from: int)
    requires
        0 <= from,
        forall|i: int|
            0 <= i < fields.len() ==> (#[trigger] fields[i]).0@ == ALLOW_LIST@ || fields[i].0@
                == EXCLUDE_LIST@,
    ensures
        stray_key(fields, from) is None,
    decreases fields.len() - from,
{
    if from < fields.len() {
        lemma_no_stray_key(fields, from + 1);
    }
}

/// Every filter of a `filters` block could be honoured.
pub open spec fn honoured(f: FiltersModel) -> bool {
    &&& f.agentgraph is Some ==> filter_fault(f.agentgraph->0) is None
    &&& f.vcs is Some ==> filter_fault(f.vcs->0) is None
    &&& forall|i: int|
        0 <= i < f.profiles.len() ==> filter_fault((#[trigger] f.profiles[i]).1) is None
}

fn write_profiles(profiles: &Vec<(String, EventFilter)>) -> (r: Json)
    ensures
        r is Object,
        profiles_of(Some(r)) == profile_models(profiles@),
        (forall|i: int|
            0 <= i < profiles@.len() ==> filter_fault((#[trigger] profiles@[i]).1@) is None)
            ==> are_profiles(Some(r)),
{
    let mut out: Vec<(String, Json)> = Vec::new();
    let mut i: usize = 0;
    while i < profiles.len()
        invariant
            i <= profiles@.len(),
            out@.len() == i,
            forall|j: int|
                0 <= j < i ==> (#[trigger] out@[j]).0@ == profiles@[j].0@ && filter_of(out@[j].1)
                    == profiles@[j].1@ && document_fault(out@[j].1) == filter_fault(
                    profiles@[j].1@,
                ),
        decreases profiles@.len() - i,
    {
        let one = profiles[i].1.to_json();
        out.push((profiles[i].0.clone(), one));
        i += 1;
    }
    let ghost entries = out@;
    let r = Json::Object(out);
    proof {
        assert(profiles_of(Some(r)) =~= profile_models(profiles@));
        if forall|i: int|
            0 <= i < profiles@.len() ==> filter_fault((#[trigger] profiles@[i]).1@) is None {
            assert forall|i: int| 0 <= i < entries.len() implies document_fault(
                (#[trigger] entries[i]).1,
            ) is None by {
                assert(filter_fault(profiles@[i].1@) is None);
            }
        }
    }
    r
}

impl Filters {
    /// This block as a document writes it: what it does not say is left out. What
    /// is written reads back as this block.
    pub fn to_json(&self) -> (r: Json)
        ensures
            filters_of(Some(r)) == self@,
            honoured(self@) ==> are_filters(Some(r)),
            r is Object,
    {
        let mut fields: Vec<(String, Json)> = Vec::new();
        let ghost start = fields@;
        proof {
            reveal_strlit("agentgraph");
            reveal_strlit("vcs");
            reveal_strlit("profiles");
            assert("agentgraph"@.len() == 10 && "vcs"@.len() == 3 && "profiles"@.len() == 8);
            assert(field_in(start, "agentgraph"@) is None);
            assert(field_in(start, "vcs"@) is None);
            assert(field_in(start, "profiles"@) is None);
        }
        if let Some(filter) = &self.agentgraph {
            let one = filter.to_json();
            record::put(&mut fields, "agentgraph", one);
        }
        if let Some(filter) = &self.vcs {
            let one = filter.to_json();
            record::put(&mut fields, "vcs", one);
        }
        if self.profiles.len() > 0 {
            let all = write_profiles(&self.profiles);
            record::put(&mut fields, "profiles", all);
        }
        let ghost written = fields@;
        let r = Json::Object(fields);
        proof {
            assert(profile_models(self.profiles@).len() == self.profiles@.len());
            assert(filters_of(Some(r)) =~= self@);
            if honoured(self@) {
                assert forall|i: int| 0 <= i < self.profiles@.len() implies filter_fault(
                    (#[trigger] self.profiles@[i]).1@,
                ) is None by {
                    assert(self@.profiles[i].1 == self.profiles@[i].1@);
                }
            }
        }
        r
    }
}

impl LaunchConfig {
    /// This config as a document writes it: a block that says nothing and a key
    /// that names nothing are left out, so a config that declares neither is one an
    /// earlier reader still accepts. What is written reads back as this config.
    pub fn to_json(&self) -> (r: Json)
        ensures
            launch_of(r) == self@,
            honoured(self@.filters) ==> is_launch_config(r),
            r matches Json::Object(fields) && (field_in(fields@, "filters"@) is None <==> self@.filters
                == FiltersModel { agentgraph: None, vcs: None, profiles: Seq::empty() }) && (
            field_in(fields@, "pr_author_graph"@) is None <==> self.pr_author_graph is None) && (
            field_in(fields@, "node_validator"@) is None <==> self.node_validator is None),
    {
        let mut fields: Vec<(String, Json)> = Vec::new();
        let ghost start = fields@;
        proof {
            reveal_strlit("schema_version");
            reveal_strlit("filters");
            reveal_strlit("pr_author_graph");
            reveal_strlit("node_validator");
            assert("filters"@.len() == 7 && "pr_author_graph"@.len() == 15);
            assert("schema_version"@[0] == 's' && "node_validator"@[0] == 'n');
            assert("schema_version"@.len() == 14 && "node_validator"@.len() == 14);
            assert(field_in(start, "schema_version"@) is None);
            assert(field_in(start, "filters"@) is None);
            assert(field_in(start, "pr_author_graph"@) is None);
            assert(field_in(start, "node_validator"@) is None);
        }
        record::put(&mut fields, "schema_version", Json::Count(self.schema_version as u64));
        if !self.filters.is_empty() {
            let block = self.filters.to_json();
            record::put(&mut fields, "filters", block);
        }
        if let Some(graph) = &self.pr_author_graph {
            record::put(&mut fields, "pr_author_graph", Json::Text(graph.clone()));
        }
        if let Some(validator) = &self.node_validator {
            record::put(&mut fields, "node_validator", Json::Text(validator.clone()));
        }
        let ghost written = fields@;
        let r = Json::Object(fields);
        proof {
            assert(launch_of(r) =~= self@);
        }
        r
    }
}

/// What an envelope carries under a label: what its typed slot says, whatever the extras
/// say; and otherwise what the first extra of that name says, where that is a string.
pub proof fn law_what_an_envelope_carries(
    labels: LabelsModel,
    name: Seq<char>,
    typed: Option<Seq<char>>,
    i: int,
)
    ensures
        typed is Some ==> carried(labels, name, typed) == typed,
        typed is None && 0 <= i < labels.extra.len() && labels.extra[i].0 == name && (forall|j: int|
            0 <= j < i ==> (#[trigger] labels.extra[j]).0 != name) ==> carried(labels, name, typed)
            == (match labels.extra[i].1 {
            JsonModel::Text(value) => Some(value),
            _ => None,
        }),
        typed is None && (forall|j: int|
            0 <= j < labels.extra.len() ==> (#[trigger] labels.extra[j]).0 != name) ==> carried(
            labels,
            name,
            typed,
        ) is None,
{
    if 0 <= i < labels.extra.len() && labels.extra[i].0 == name && (forall|j: int|
        0 <= j < i ==> (#[trigger] labels.extra[j]).0 != name) {
        lemma_first_extra(labels.extra, name, 0, i);
    }
    if forall|j: int| 0 <= j < labels.extra.len() ==> (#[trigger] labels.extra[j]).0 != name {
        lemma_no_extra(labels.extra, name, 0);
    }
}

proof fn lemma_no_extra(extra: Seq<(Seq<char>, JsonModel)>, name: Seq<char>, from: int)
    requires
        0 <= from,
        forall|j: int| 0 <= j < extra.len() ==> (#[trigger] extra[j]).0 != name,
    ensures
        extra_label(extra, name, from) is None,
    decreases extra.len() - from,
{
    if from < extra.len() {
        lemma_no_extra(extra, name, from + 1);
    }
}

/// A matcher that asks for something holds only of an envelope that carries that very
/// thing, field by field: another source, a kind its glob does not match, or another value
/// of a label — or none — is enough for it not to hold.
pub proof fn law_a_matcher_holds_only_of_what_it_asks_for(
    m: MatcherModel,
    source: Source,
    kind: Seq<char>,
    labels: LabelsModel,
)
    ensures
        m.source is Some && m.source->0 != source ==> !holds_of(m, source, kind, labels),
        m.kind is Some && !globs(m.kind->0, kind) ==> !holds_of(m, source, kind, labels),
        m.run_id is Some && carried(labels, "run_id"@, labels.run_id) != m.run_id ==> !holds_of(
            m,
            source,
            kind,
            labels,
        ),
        m.node is Some && carried(labels, "node"@, labels.node) != m.node ==> !holds_of(
            m,
            source,
            kind,
            labels,
        ),
        m.step is Some && carried(labels, "step"@, labels.step) != m.step ==> !holds_of(
            m,
            source,
            kind,
            labels,
        ),
        m.member is Some && carried(labels, "member"@, None) != m.member ==> !holds_of(
            m,
            source,
            kind,
            labels,
        ),
        m.persona is Some && carried(labels, "persona"@, labels.persona) != m.persona
            ==> !holds_of(m, source, kind, labels),
{
}

/// A matcher holds of every envelope that carries what it asks for: nothing it does not
/// name is consulted.
pub proof fn law_a_matcher_consults_only_what_it_names(
    m: MatcherModel,
    source: Source,
    kind: Seq<char>,
    labels: LabelsModel,
)
    requires
        m.source is None || m.source->0 == source,
        m.kind is None || globs(m.kind->0, kind),
        m.run_id is None || carried(labels, "run_id"@, labels.run_id) == m.run_id,
        m.node is None || carried(labels, "node"@, labels.node) == m.node,
        m.step is None || carried(labels, "step"@, labels.step) == m.step,
        m.member is None || carried(labels, "member"@, None) == m.member,
        m.persona is None || carried(labels, "persona"@, labels.persona) == m.persona,
    ensures
        holds_of(m, source, kind, labels),
{
}

/// The typed labels of an envelope, one by one: a matcher that asks for one of them does
/// not hold where the envelope is stamped otherwise.
pub proof fn law_another_label_is_not_matched(
    m: MatcherModel,
    source: Source,
    kind: Seq<char>,
    labels: LabelsModel,
)
    ensures
        m.run_id is Some && labels.run_id is Some && m.run_id != labels.run_id ==> !holds_of(
            m,
            source,
            kind,
            labels,
        ),
        m.node is Some && labels.node is Some && m.node != labels.node ==> !holds_of(
            m,
            source,
            kind,
            labels,
        ),
        m.step is Some && labels.step is Some && m.step != labels.step ==> !holds_of(
            m,
            source,
            kind,
            labels,
        ),
        m.persona is Some && labels.persona is Some && m.persona != labels.persona ==> !holds_of(
            m,
            source,
            kind,
            labels,
        ),
{
}

/// An envelope reaches a reader exactly where no matcher that excludes holds of it and,
/// where any matcher admits at all, one of those does.
pub proof fn law_what_reaches_a_reader(
    f: FilterModel,
    source: Source,
    kind: Seq<char>,
    labels: LabelsModel,
)
    ensures
        passes(f, source, kind, labels) <==> {
            &&& forall|i: int|
                0 <= i < f.exclude.len() ==> !holds_of(
                    #[trigger] f.exclude[i],
                    source,
                    kind,
                    labels,
                )
            &&& f.allow.len() > 0 ==> exists|i: int|
                0 <= i < f.allow.len() && holds_of(#[trigger] f.allow[i], source, kind, labels)
        },
{
}

/// A matcher is honoured exactly where it names a field and none that it names is blank.
pub proof fn law_which_matchers_are_honoured(m: MatcherModel)
    ensures
        matcher_fault(m) is None <==> {
            &&& m.source is Some || m.kind is Some || m.run_id is Some || m.node is Some || m.step
                is Some || m.member is Some || m.persona is Some
            &&& m.kind is Some ==> !blank(m.kind->0)
            &&& m.run_id is Some ==> !blank(m.run_id->0)
            &&& m.node is Some ==> !blank(m.node->0)
            &&& m.step is Some ==> !blank(m.step->0)
            &&& m.member is Some ==> !blank(m.member->0)
            &&& m.persona is Some ==> !blank(m.persona->0)
        },
{
}

proof fn lemma_list_fault(list: Seq<char>, matchers: Seq<MatcherModel>, from: int)
    requires
        0 <= from <= matchers.len(),
    ensures
        list_fault(list, matchers, from) is None <==> forall|i: int|
            from <= i < matchers.len() ==> matcher_fault(#[trigger] matchers[i]) is None,
    decreases matchers.len() - from,
{
    if from < matchers.len() {
        lemma_list_fault(list, matchers, from + 1);
        if list_fault(list, matchers, from) is None {
            assert forall|i: int| from <= i < matchers.len() implies matcher_fault(
                #[trigger] matchers[i],
            ) is None by {}
        } else if matcher_fault(matchers[from]) is None {
            let i = choose|i: int|
                from + 1 <= i < matchers.len() && matcher_fault(#[trigger] matchers[i]) is Some;
            assert(matcher_fault(matchers[i]) is Some);
        }
    }
}

/// A filter is honoured exactly where every matcher of both its lists is.
pub proof fn law_which_filters_are_honoured(f: FilterModel)
    ensures
        filter_fault(f) is None <==> {
            &&& forall|i: int|
                0 <= i < f.allow.len() ==> matcher_fault(#[trigger] f.allow[i]) is None
            &&& forall|i: int|
                0 <= i < f.exclude.len() ==> matcher_fault(#[trigger] f.exclude[i]) is None
        },
{
    lemma_list_fault(ALLOW_LIST@, f.allow, 0);
    lemma_list_fault(EXCLUDE_LIST@, f.exclude, 0);
}

/// A source is written as its own word, and read back from it and from no other.
pub proof fn law_the_words_of_the_sources(source: Source, word: Seq<char>)
    ensures
        Source::Pipeline.word() == "pipeline"@,
        Source::Agentgraph.word() == "agentgraph"@,
        Source::Vcs.word() == "vcs"@,
        Source::read(word) == Some(source) <==> word == source.word(),
{
    reveal_strlit("pipeline");
    reveal_strlit("agentgraph");
    reveal_strlit("vcs");
    assert("pipeline"@.len() == 8 && "agentgraph"@.len() == 10 && "vcs"@.len() == 3);
}

/// What a field of a matcher may be: a source by its word, any of the other six by a
/// string, and nothing else.
pub proof fn law_what_a_matcher_may_name(named: Seq<char>, field: (String, Json))
    ensures
        matcher_key_fault(named, field) is None <==> {
            ||| field.0@ == "source"@ && source_in(field.1) is Ok
            ||| field.1 is Text && (field.0@ == "kind"@ || field.0@ == "run_id"@ || field.0@
                == "node"@ || field.0@ == "step"@ || field.0@ == "member"@ || field.0@
                == "persona"@)
        },
        field.1 is Text ==> (source_in(field.1) is Ok <==> field.1->Text_0@ == "pipeline"@
            || field.1->Text_0@ == "agentgraph"@ || field.1->Text_0@ == "vcs"@),
        field.1 is Null || field.1 is Bool || field.1 is Count || field.1 is List ==> source_in(
            field.1,
        ) is Err,
{
    lemma_matcher_names();
}

proof fn lemma_field_read(fields: Seq<(String, Json)>, i: int)
    requires
        0 <= i < fields.len(),
        forall|k: int| i < k < fields.len() ==> (#[trigger] fields[k]).0@ != fields[i].0@,
        forall|k: int|
            0 <= k < fields.len() ==> (#[trigger] fields[k]).0@ == "source"@ || text_field(
                fields[k].0@,
            ),
    ensures
        ({
            let m = matcher_of(fields);
            let name = fields[i].0@;
            let value = json::text_in(Some(fields[i].1));
            &&& name == "source"@ ==> m.source == Some(source_in(fields[i].1)->Ok_0)
            &&& name == "kind"@ ==> m.kind == value
            &&& name == "run_id"@ ==> m.run_id == value
            &&& name == "node"@ ==> m.node == value
            &&& name == "step"@ ==> m.step == value
            &&& name == "member"@ ==> m.member == value
            &&& name == "persona"@ ==> m.persona == value
        }),
    decreases fields.len(),
{
    lemma_matcher_names();
    if i < fields.len() - 1 {
        let before = fields.drop_last();
        assert forall|k: int| i < k < before.len() implies (#[trigger] before[k]).0@
            != before[i].0@ by {
            assert(fields[k].0@ != fields[i].0@);
        }
        assert forall|k: int| 0 <= k < before.len() implies (#[trigger] before[k]).0@ == "source"@
            || text_field(before[k].0@) by {
            assert(fields[k].0@ == "source"@ || text_field(fields[k].0@));
        }
        lemma_field_read(before, i);
        assert(fields.last().0@ != fields[i].0@);
        assert(fields.last() == fields[fields.len() - 1]);
        assert(fields.last().0@ == "source"@ || text_field(fields.last().0@));
    }
}

proof fn lemma_field_unread(fields: Seq<(String, Json)>, name: Seq<char>)
    requires
        forall|k: int| 0 <= k < fields.len() ==> (#[trigger] fields[k]).0@ != name,
        forall|k: int|
            0 <= k < fields.len() ==> (#[trigger] fields[k]).0@ == "source"@ || text_field(
                fields[k].0@,
            ),
    ensures
        ({
            let m = matcher_of(fields);
            &&& name == "source"@ ==> m.source is None
            &&& name == "kind"@ ==> m.kind is None
            &&& name == "run_id"@ ==> m.run_id is None
            &&& name == "node"@ ==> m.node is None
            &&& name == "step"@ ==> m.step is None
            &&& name == "member"@ ==> m.member is None
            &&& name == "persona"@ ==> m.persona is None
        }),
    decreases fields.len(),
{
    lemma_matcher_names();
    if fields.len() > 0 {
        let before = fields.drop_last();
        assert forall|k: int| 0 <= k < before.len() implies (#[trigger] before[k]).0@ != name by {
            assert(fields[k].0@ != name);
        }
        assert forall|k: int| 0 <= k < before.len() implies (#[trigger] before[k]).0@ == "source"@
            || text_field(before[k].0@) by {
            assert(fields[k].0@ == "source"@ || text_field(fields[k].0@));
        }
        lemma_field_unread(before, name);
        assert(fields.last() == fields[fields.len() - 1]);
        assert(fields.last().0@ != name);
        assert(fields.last().0@ == "source"@ || text_field(fields.last().0@));
    }
}

/// What a document asks for under a name is what the matcher it declares asks for under
/// that name, and a name it leaves out is not asked for.
pub proof fn law_a_matcher_asks_for_what_its_document_names(
    fields: Seq<(String, Json)>,
    i: int,
    absent: Seq<char>,
)
    requires
        forall|k: int, named: Seq<char>|
            0 <= k < fields.len() ==> #[trigger] matcher_key_fault(named, fields[k]) is None,
        0 <= i < fields.len(),
        forall|k: int| i < k < fields.len() ==> (#[trigger] fields[k]).0@ != fields[i].0@,
        forall|k: int| 0 <= k < fields.len() ==> (#[trigger] fields[k]).0@ != absent,
    ensures
        ({
            let m = matcher_of(fields);
            let name = fields[i].0@;
            let value = fields[i].1;
            &&& name == "source"@ && value is Text ==> m.source is Some && m.source->0.word()
                == value->Text_0@
            &&& name == "kind"@ ==> m.kind == Some(value->Text_0@)
            &&& name == "run_id"@ ==> m.run_id == Some(value->Text_0@)
            &&& name == "node"@ ==> m.node == Some(value->Text_0@)
            &&& name == "step"@ ==> m.step == Some(value->Text_0@)
            &&& name == "member"@ ==> m.member == Some(value->Text_0@)
            &&& name == "persona"@ ==> m.persona == Some(value->Text_0@)
            &&& absent == "source"@ ==> m.source is None
            &&& absent == "kind"@ ==> m.kind is None
            &&& absent == "run_id"@ ==> m.run_id is None
            &&& absent == "node"@ ==> m.node is None
            &&& absent == "step"@ ==> m.step is None
            &&& absent == "member"@ ==> m.member is None
            &&& absent == "persona"@ ==> m.persona is None
        }),
{
    lemma_matcher_names();
    assert forall|k: int| 0 <= k < fields.len() implies (#[trigger] fields[k]).0@ == "source"@
        || text_field(fields[k].0@) by {
        assert(matcher_key_fault(Seq::empty(), fields[k]) is None);
    }
    assert(matcher_key_fault(Seq::empty(), fields[i]) is None);
    lemma_field_read(fields, i);
    lemma_field_unread(fields, absent);
    let value = fields[i].1;
    if fields[i].0@ == "source"@ && value is Text {
        law_the_words_of_the_sources(source_in(value)->Ok_0, value->Text_0@);
    }
}

/// A filter's two lists are read from the keys that name them: what `include` lists admits
/// and what `exclude` lists rejects, matcher for matcher and in order; a key left out
/// lists nothing.
pub proof fn law_a_filter_reads_its_two_lists(fields: Vec<(String, Json)>)
    ensures
        ({
            let f = filter_of(Json::Object(fields));
            let admits = field_in(fields@, "include"@);
            let rejects = field_in(fields@, "exclude"@);
            &&& admits is None ==> f.allow.len() == 0
            &&& rejects is None ==> f.exclude.len() == 0
            &&& admits matches Some(Json::List(list)) ==> f.allow.len() == list@.len() && forall|
                i: int,
            |
                0 <= i < list@.len() ==> #[trigger] f.allow[i] == matcher_of(list@[i]->Object_0@)
            &&& rejects matches Some(Json::List(list)) ==> f.exclude.len() == list@.len()
                && forall|i: int|
                0 <= i < list@.len() ==> #[trigger] f.exclude[i] == matcher_of(list@[i]->Object_0@)
        }),
{
    reveal_strlit("include");
    reveal_strlit("exclude");
}

proof fn lemma_stray_key(fields: Seq<(String, Json)>, from: int)
    requires
        0 <= from <= fields.len(),
    ensures
        stray_key(fields, from) is None <==> forall|i: int|
            from <= i < fields.len() ==> (#[trigger] fields[i]).0@ == ALLOW_LIST@ || fields[i].0@
                == EXCLUDE_LIST@,
    decreases fields.len() - from,
{
    if from < fields.len() {
        lemma_stray_key(fields, from + 1);
        if stray_key(fields, from) is None {
            assert forall|i: int| from <= i < fields.len() implies (#[trigger] fields[i]).0@
                == ALLOW_LIST@ || fields[i].0@ == EXCLUDE_LIST@ by {}
        } else if fields[from].0@ == ALLOW_LIST@ || fields[from].0@ == EXCLUDE_LIST@ {
            let i = choose|i: int|
                from + 1 <= i < fields.len() && (#[trigger] fields[i]).0@ != ALLOW_LIST@
                    && fields[i].0@ != EXCLUDE_LIST@;
            assert(fields[i].0@ != ALLOW_LIST@);
        }
    }
}

proof fn lemma_keys_fault(named: Seq<char>, fields: Seq<(String, Json)>, from: int)
    requires
        0 <= from <= fields.len(),
    ensures
        matcher_keys_fault(named, fields, from) is None <==> forall|i: int|
            from <= i < fields.len() ==> matcher_key_fault(named, #[trigger] fields[i]) is None,
    decreases fields.len() - from,
{
    if from < fields.len() {
        lemma_keys_fault(named, fields, from + 1);
        if matcher_keys_fault(named, fields, from) is None {
            assert forall|i: int| from <= i < fields.len() implies matcher_key_fault(
                named,
                #[trigger] fields[i],
            ) is None by {}
        } else if matcher_key_fault(named, fields[from]) is None {
            let i = choose|i: int|
                from + 1 <= i < fields.len() && matcher_key_fault(named, #[trigger] fields[i])
                    is Some;
            assert(matcher_key_fault(named, fields[i]) is Some);
        }
    }
}

proof fn lemma_entries_fault(entries: Seq<Json>, list: Seq<char>, from: int)
    requires
        0 <= from <= entries.len(),
    ensures
        entries_fault(entries, list, from) is None <==> forall|i: int|
            from <= i < entries.len() ==> entry_fault(
                #[trigger] entries[i],
                list,
                (i + 1) as nat,
            ) is None,
    decreases entries.len() - from,
{
    if from < entries.len() {
        lemma_entries_fault(entries, list, from + 1);
        if entries_fault(entries, list, from) is None {
            assert forall|i: int| from <= i < entries.len() implies entry_fault(
                #[trigger] entries[i],
                list,
                (i + 1) as nat,
            ) is None by {}
        } else if entry_fault(entries[from], list, (from + 1) as nat) is None {
            let i = choose|i: int|
                from + 1 <= i < entries.len() && entry_fault(
                    #[trigger] entries[i],
                    list,
                    (i + 1) as nat,
                ) is Some;
            assert(entry_fault(entries[i], list, (i + 1) as nat) is Some);
        }
    }
}

/// Which of a document's lists are lists of matchers: one that is left out, and one whose
/// every entry is a mapping of fields a matcher may name.
pub proof fn law_which_lists_hold_matchers(value: Option<Json>, list: Seq<char>)
    ensures
        matchers_fault(value, list) is None <==> value is None || value->0 is List && forall|i: int|
            0 <= i < value->0->List_0@.len() ==> {
                let entry = #[trigger] value->0->List_0@[i];
                entry is Object && forall|k: int|
                    0 <= k < entry->Object_0@.len() ==> matcher_key_fault(
                        matcher_named(list, (i + 1) as nat),
                        #[trigger] entry->Object_0@[k],
                    ) is None
            },
{
    if value is Some && value->0 is List {
        let entries = value->0->List_0@;
        lemma_entries_fault(entries, list, 0);
        assert forall|i: int| 0 <= i < entries.len() implies (entry_fault(
            #[trigger] entries[i],
            list,
            (i + 1) as nat,
        ) is None <==> entries[i] is Object && forall|k: int|
            0 <= k < entries[i]->Object_0@.len() ==> matcher_key_fault(
                matcher_named(list, (i + 1) as nat),
                #[trigger] entries[i]->Object_0@[k],
            ) is None) by {
            if entries[i] is Object {
                lemma_keys_fault(
                    matcher_named(list, (i + 1) as nat),
                    entries[i]->Object_0@,
                    0,
                );
            }
        }
    }
}

/// Which documents are filters: a mapping of `include` and `exclude` and nothing else, each
/// a list of matchers, all of which are honoured.
pub proof fn law_which_documents_are_filters(document: Json)
    ensures
        document_fault(document) is None <==> document is Object && {
            let fields = document->Object_0@;
            &&& forall|i: int|
                0 <= i < fields.len() ==> (#[trigger] fields[i]).0@ == "include"@ || fields[i].0@
                    == "exclude"@
            &&& matchers_fault(field_in(fields, "include"@), "include"@) is None
            &&& matchers_fault(field_in(fields, "exclude"@), "exclude"@) is None
            &&& filter_fault(filter_of(document)) is None
        },
{
    reveal_strlit("include");
    reveal_strlit("exclude");
    if document is Object {
        lemma_stray_key(document->Object_0@, 0);
    }
}

proof fn lemma_profile_named(profiles: Seq<(Seq<char>, FilterModel)>, name: Seq<char>, from: int)
    requires
        0 <= from <= profiles.len(),
    ensures
        match profile_named(profiles, name, from) {
            Some(f) => exists|i: int|
                from <= i < profiles.len() && (#[trigger] profiles[i]) == (name, f) && forall|j: int|
                    from <= j < i ==> (#[trigger] profiles[j]).0 != name,
            None => forall|i: int|
                from <= i < profiles.len() ==> (#[trigger] profiles[i]).0 != name,
        },
    decreases profiles.len() - from,
{
    if from < profiles.len() {
        if profiles[from].0 == name {
            assert(profiles[from] == (name, profiles[from].1));
        } else {
            lemma_profile_named(profiles, name, from + 1);
            if profile_named(profiles, name, from + 1) is Some {
                let f = profile_named(profiles, name, from + 1)->0;
                let i = choose|i: int|
                    from + 1 <= i < profiles.len() && (#[trigger] profiles[i]) == (name, f)
                        && forall|j: int|
                        from + 1 <= j < i ==> (#[trigger] profiles[j]).0 != name;
                assert(profiles[i] == (name, f));
            }
        }
    }
}

/// The profile of a name is the first a launch declared under it, and a name it did not
/// declare has none.
pub proof fn law_a_profile_is_the_one_of_its_name(
    profiles: Seq<(Seq<char>, FilterModel)>,
    name: Seq<char>,
)
    ensures
        match profile_named(profiles, name, 0) {
            Some(f) => exists|i: int|
                0 <= i < profiles.len() && (#[trigger] profiles[i]) == (name, f) && forall|j: int|
                    0 <= j < i ==> (#[trigger] profiles[j]).0 != name,
            None => forall|i: int|
                0 <= i < profiles.len() ==> (#[trigger] profiles[i]).0 != name,
        },
{
    lemma_profile_named(profiles, name, 0);
}

/// The two shipped profiles: `planner` shows every event of this engine and none of the
/// other two, and `monitor` shows everything. No other name is shipped.
pub proof fn law_what_the_shipped_profiles_show(
    name: Seq<char>,
    source: Source,
    kind: Seq<char>,
    labels: LabelsModel,
)
    ensures
        shipped(name) is Some <==> name == "planner"@ || name == "monitor"@,
        name == "planner"@ ==> (passes(shipped(name)->0, source, kind, labels) <==> source
            == Source::Pipeline),
        name == "monitor"@ ==> passes(shipped(name)->0, source, kind, labels),
{
    reveal_strlit("planner");
    reveal_strlit("monitor");
    assert("planner"@[0] == 'p' && "monitor"@[0] == 'm');
    if name == "planner"@ {
        let f = shipped(name)->0;
        assert(f.allow[0] == (MatcherModel { source: Some(Source::Pipeline), ..unasking() }));
    }
}

proof fn lemma_insert_name(names: Seq<Seq<char>>, name: Seq<char>)
    requires
        in_order(names),
        !names.contains(name),
    ensures
        in_order(insert_name(names, name)),
        forall|other: Seq<char>| #[trigger]
            insert_name(names, name).contains(other) <==> other == name || names.contains(other),
    decreases names.len(),
{
    let r = insert_name(names, name);
    if names.len() == 0 {
        assert(r[0] == name);
        assert forall|other: Seq<char>| #[trigger] r.contains(other) implies other == name by {}
        assert(r.contains(name)) by {
            assert(r[0] == name);
        }
    } else if precedes(name, names[0]) {
        assert forall|i: int, j: int| 0 <= i < j < r.len() implies precedes(
            #[trigger] r[i],
            #[trigger] r[j],
        ) by {
            if i == 0 && j > 1 {
                text::lemma_precedes_transitive(name, names[0], names[j - 1]);
            }
        }
        assert forall|other: Seq<char>| #[trigger]
            r.contains(other) <==> other == name || names.contains(other) by {
            if other == name {
                assert(r[0] == name);
            }
            if names.contains(other) {
                let k = choose|k: int| 0 <= k < names.len() && names[k] == other;
                assert(r[k + 1] == other);
            }
            if r.contains(other) && other != name {
                let k = choose|k: int| 0 <= k < r.len() && r[k] == other;
                assert(names[k - 1] == other);
            }
        }
    } else {
        let rest = names.skip(1);
        assert forall|i: int, j: int| 0 <= i < j < rest.len() implies precedes(
            #[trigger] rest[i],
            #[trigger] rest[j],
        ) by {
            assert(precedes(names[i + 1], names[j + 1]));
        }
        assert(!rest.contains(name)) by {
            if rest.contains(name) {
                let k = choose|k: int| 0 <= k < rest.len() && rest[k] == name;
                assert(names[k + 1] == name);
            }
        }
        lemma_insert_name(rest, name);
        let more = insert_name(rest, name);
        assert(names.contains(names[0]));
        text::lemma_precedes_total(name, names[0]);
        assert forall|i: int, j: int| 0 <= i < j < r.len() implies precedes(
            #[trigger] r[i],
            #[trigger] r[j],
        ) by {
            if i == 0 {
                assert(more.contains(more[j - 1]));
                if more[j - 1] != name {
                    let k = choose|k: int| 0 <= k < rest.len() && rest[k] == more[j - 1];
                    assert(precedes(names[0], names[k + 1]));
                }
            } else {
                assert(precedes(more[i - 1], more[j - 1]));
            }
        }
        assert forall|other: Seq<char>| #[trigger]
            r.contains(other) <==> other == name || names.contains(other) by {
            if r.contains(other) {
                let k = choose|k: int| 0 <= k < r.len() && r[k] == other;
                if k > 0 {
                    assert(more.contains(more[k - 1]));
                    if other != name {
                        let q = choose|q: int| 0 <= q < rest.len() && rest[q] == other;
                        assert(names[q + 1] == other);
                    }
                }
            }
            if other == name || names.contains(other) {
                if names.contains(other) && other == names[0] {
                    assert(r[0] == other);
                } else {
                    if other != name {
                        let k = choose|k: int| 0 <= k < names.len() && names[k] == other;
                        assert(rest[k - 1] == other);
                    }
                    assert(more.contains(other));
                    let k = choose|k: int| 0 <= k < more.len() && more[k] == other;
                    assert(r[k + 1] == other);
                }
            }
        }
    }
}

/// Each name comes before the ones behind it.
pub open spec fn in_order(names: Seq<Seq<char>>) -> bool {
    forall|i: int, j: int|
        0 <= i < j < names.len() ==> precedes(#[trigger] names[i], #[trigger] names[j])
}

proof fn lemma_sorted_names(names: Seq<Seq<char>>)
    requires
        names.no_duplicates(),
    ensures
        in_order(sorted_names(names)),
        forall|name: Seq<char>| #[trigger]
            sorted_names(names).contains(name) <==> names.contains(name),
    decreases names.len(),
{
    if names.len() > 0 {
        let before = names.drop_last();
        lemma_sorted_names(before);
        assert(!before.contains(names.last())) by {
            if before.contains(names.last()) {
                let k = choose|k: int| 0 <= k < before.len() && before[k] == names.last();
                assert(names[k] == names[names.len() - 1]);
            }
        }
        lemma_insert_name(sorted_names(before), names.last());
        assert forall|name: Seq<char>| #[trigger]
            sorted_names(names).contains(name) <==> names.contains(name) by {
            if names.contains(name) && name != names.last() {
                let k = choose|k: int| 0 <= k < names.len() && names[k] == name;
                assert(before[k] == name);
            }
            if before.contains(name) {
                let k = choose|k: int| 0 <= k < before.len() && before[k] == name;
                assert(names[k] == name);
            }
            if name == names.last() {
                assert(names[names.len() - 1] == name);
            }
        }
    } else {
        assert forall|name: Seq<char>| #[trigger]
            sorted_names(names).contains(name) <==> names.contains(name) by {}
    }
}

proof fn lemma_with_name(names: Seq<Seq<char>>, name: Seq<char>)
    requires
        names.no_duplicates(),
    ensures
        with_name(names, name).no_duplicates(),
        forall|other: Seq<char>| #[trigger]
            with_name(names, name).contains(other) <==> other == name || names.contains(other),
{
    let r = with_name(names, name);
    if !names.contains(name) {
        assert forall|i: int, j: int| 0 <= i < r.len() && 0 <= j < r.len() && i != j implies r[i]
            != r[j] by {
            if i < names.len() {
                assert(names.contains(names[i]));
            }
            if j < names.len() {
                assert(names.contains(names[j]));
            }
        }
        assert forall|other: Seq<char>| #[trigger]
            r.contains(other) <==> other == name || names.contains(other) by {
            if other == name {
                assert(r[names.len() as int] == name);
            }
            if names.contains(other) {
                let k = choose|k: int| 0 <= k < names.len() && names[k] == other;
                assert(r[k] == other);
            }
        }
    }
}

/// A reader is told of every profile a run has: its own and the two shipped ones, each
/// once and in order.
pub proof fn law_every_profile_is_told_once(profiles: Seq<(Seq<char>, FilterModel)>, name: Seq<char>)
    requires
        profile_names(profiles).no_duplicates(),
    ensures
        in_order(known_profiles(profiles)),
        known_profiles(profiles).contains(name) <==> name == "planner"@ || name == "monitor"@
            || exists|i: int| 0 <= i < profiles.len() && (#[trigger] profiles[i]).0 == name,
{
    reveal_strlit("planner");
    reveal_strlit("monitor");
    let own = profile_names(profiles);
    lemma_with_name(own, DEFAULT_PROFILE@);
    let more = with_name(own, DEFAULT_PROFILE@);
    lemma_with_name(more, MONITOR_PROFILE@);
    lemma_sorted_names(with_name(more, MONITOR_PROFILE@));
    if exists|i: int| 0 <= i < profiles.len() && (#[trigger] profiles[i]).0 == name {
        let i = choose|i: int| 0 <= i < profiles.len() && (#[trigger] profiles[i]).0 == name;
        assert(own[i] == name);
        assert(own.contains(name));
    }
    if own.contains(name) {
        let i = choose|i: int| 0 <= i < own.len() && own[i] == name;
        assert(profiles[i].0 == name);
    }
    assert(more.contains(name) <==> name == DEFAULT_PROFILE@ || own.contains(name));
    assert(with_name(more, MONITOR_PROFILE@).contains(name) <==> name == MONITOR_PROFILE@
        || more.contains(name));
}

/// Which launch configs their version allows: one of the three this build reads, with a
/// drafting graph only from the second on and a node validator only from the third, and
/// none that is blank.
pub proof fn law_which_launch_configs_their_version_allows(config: LaunchModel)
    ensures
        launch_version_fault(config) is None <==> {
            &&& config.schema_version == 1 || config.schema_version == 2 || config.schema_version
                == 3
            &&& config.pr_author_graph is Some ==> config.schema_version >= 2
            &&& config.node_validator is Some ==> config.schema_version == 3 && !blank(
                config.node_validator->0,
            )
        },
{
    let read = LAUNCH_CONFIG_SCHEMA_VERSIONS_READ@;
    assert(read.len() == 3 && read[0] == 3 && read[1] == 2 && read[2] == 1);
}

/// A launch config is read key by key: its number, its filters, its drafting graph and its
/// validator are what the document holds under those names, and no other key is allowed.
pub proof fn law_a_launch_config_is_read_key_by_key(fields: Vec<(String, Json)>)
    ensures
        ({
            let document = Json::Object(fields);
            let config = launch_of(document);
            let version = field_in(fields@, "schema_version"@);
            let author = field_in(fields@, "pr_author_graph"@);
            let validator = field_in(fields@, "node_validator"@);
            is_launch_config(document) ==> {
                &&& forall|i: int|
                    0 <= i < fields@.len() ==> (#[trigger] fields@[i]).0@ == "schema_version"@
                        || fields@[i].0@ == "filters"@ || fields@[i].0@ == "pr_author_graph"@
                        || fields@[i].0@ == "node_validator"@
                &&& version is Some && version->0 is Count && version->0->Count_0
                    == config.schema_version
                &&& author is None || author->0 is Null ==> config.pr_author_graph is None
                &&& author matches Some(Json::Text(s)) ==> config.pr_author_graph == Some(s@)
                &&& author is None || author->0 is Null || author->0 is Text
                &&& validator is None || validator->0 is Null ==> config.node_validator is None
                &&& validator matches Some(Json::Text(s)) ==> config.node_validator == Some(s@)
                &&& validator is None || validator->0 is Null || validator->0 is Text
            }
        }),
{
}

/// A `filters` block is read key by key: each source's filter and each profile is what the
/// document holds for it, and what it leaves out is not declared.
pub proof fn law_a_filters_block_is_read_key_by_key(fields: Vec<(String, Json)>)
    ensures
        ({
            let block = Some(Json::Object(fields));
            let read = filters_of(block);
            let graph = field_in(fields@, "agentgraph"@);
            let vcs = field_in(fields@, "vcs"@);
            let profiles = field_in(fields@, "profiles"@);
            &&& graph is None || graph->0 is Null ==> read.agentgraph is None
            &&& graph is Some && graph->0 is Object ==> read.agentgraph == Some(
                filter_of(graph->0),
            )
            &&& vcs is None || vcs->0 is Null ==> read.vcs is None
            &&& vcs is Some && vcs->0 is Object ==> read.vcs == Some(filter_of(vcs->0))
            &&& profiles is None ==> read.profiles.len() == 0
            &&& profiles matches Some(Json::Object(entries)) ==> read.profiles.len()
                == entries@.len() && forall|i: int|
                0 <= i < entries@.len() ==> #[trigger] read.profiles[i] == (
                    entries@[i].0@,
                    filter_of(entries@[i].1),
                )
            &&& are_filters(block) ==> {
                &&& forall|i: int|
                    0 <= i < fields@.len() ==> (#[trigger] fields@[i]).0@ == "agentgraph"@
                        || fields@[i].0@ == "vcs"@ || fields@[i].0@ == "profiles"@
                &&& graph is Some && !(graph->0 is Null) ==> document_fault(graph->0) is None
                &&& vcs is Some && !(vcs->0 is Null) ==> document_fault(vcs->0) is None
                &&& profiles is Some ==> profiles->0 is Object && forall|i: int|
                    0 <= i < profiles->0->Object_0@.len() ==> document_fault(
                        (#[trigger] profiles->0->Object_0@[i]).1,
                    ) is None
            }
        }),
{
}

/// A matcher is seen whole.
pub proof fn law_a_matcher_is_seen_whole(value: Matcher)
    ensures
        value@.source == value.source,
        value.kind is None <==> value@.kind is None,
        value.kind matches Some(s) ==> value@.kind == Some(s@),
        value.run_id is None <==> value@.run_id is None,
        value.run_id matches Some(s) ==> value@.run_id == Some(s@),
        value.node is None <==> value@.node is None,
        value.node matches Some(s) ==> value@.node == Some(s@),
        value.step is None <==> value@.step is None,
        value.step matches Some(s) ==> value@.step == Some(s@),
        value.member is None <==> value@.member is None,
        value.member matches Some(s) ==> value@.member == Some(s@),
        value.persona is None <==> value@.persona is None,
        value.persona matches Some(s) ==> value@.persona == Some(s@),
{
}

/// A filter is seen whole, each list in its order.
pub proof fn law_a_filter_is_seen_whole(value: EventFilter)
    ensures
        value@.allow.len() == value.allow@.len(),
        forall|i: int| 0 <= i < value.allow@.len() ==> #[trigger] value@.allow[i] == value.allow@[i]@,
        value@.exclude.len() == value.exclude@.len(),
        forall|i: int| 0 <= i < value.exclude@.len() ==> #[trigger] value@.exclude[i] == value.exclude@[i]@,
{
}

/// What a launch says of its events is seen whole.
pub proof fn law_filters_are_seen_whole(value: Filters)
    ensures
        value.agentgraph is None <==> value@.agentgraph is None,
        value.agentgraph matches Some(s) ==> value@.agentgraph == Some(s@),
        value.vcs is None <==> value@.vcs is None,
        value.vcs matches Some(s) ==> value@.vcs == Some(s@),
        value@.profiles.len() == value.profiles@.len(),
        forall|i: int|
            0 <= i < value.profiles@.len() ==> #[trigger] value@.profiles[i] == (
                value.profiles@[i].0@,
                value.profiles@[i].1@,
            ),
{
}

/// A launch config is seen whole.
pub proof fn law_a_launch_config_is_seen_whole(value: LaunchConfig)
    ensures
        value@.schema_version == value.schema_version,
        value@.filters == value.filters@,
        value.pr_author_graph is None <==> value@.pr_author_graph is None,
        value.pr_author_graph matches Some(s) ==> value@.pr_author_graph == Some(s@),
        value.node_validator is None <==> value@.node_validator is None,
        value.node_validator matches Some(s) ==> value@.node_validator == Some(s@),
{
}

} // verus!
