//! The pool-maintenance schedule: how often each identity's idle slots are
//! maintained.
//!
//! The schedule is a document an operator wrote, so it is versioned and closed:
//! an unknown key is refused by name rather than dropped, a `version` this build
//! does not read is refused by its number, a rule naming no match field is
//! refused as one, and a malformed span is refused by the grammar of the library
//! whose slots it is about.
use vstd::prelude::*;

use crate::error::Error;
use crate::json;
use crate::json::{field_in, rendered, Json};
use crate::plan::copy_text;
use crate::record;
use crate::text;
use crate::text::{all_digits, dec, join, text_of, texts, value_of};

verus! {

/// The flag a launch names the schedule with.
pub const FLAG: &'static str = "--maintenance-config";

/// The launch-config key a launch names the schedule with.
pub const KEY: &'static str = "maintenance_config";

/// The one version of the schedule document this build reads.
pub const SCHEDULE_VERSION: u32 = 1;

/// How many seconds a unit letter stands for.
pub open spec fn unit_seconds(unit: char) -> nat {
    if unit == 's' {
        1
    } else if unit == 'm' {
        60
    } else if unit == 'h' {
        3600
    } else {
        86400
    }
}

/// The span a text spells: one or more digits followed by exactly one unit
/// letter, naming a positive duration whose seconds fit 64 bits.
pub open spec fn span_of(text: Seq<char>) -> Option<(nat, char)> {
    if text.len() < 2 {
        None
    } else {
        let unit = text.last();
        let digits = text.drop_last();
        if (unit == 's' || unit == 'm' || unit == 'h' || unit == 'd') && all_digits(digits)
            && value_of(digits) > 0 && value_of(digits) * unit_seconds(unit) <= u64::MAX {
            Some((value_of(digits), unit))
        } else {
            None
        }
    }
}

/// A span as it is written: the number without leading zeros, and its unit.
pub open spec fn span_text(span: (nat, char)) -> Seq<char> {
    dec(span.0).push(span.1)
}

/// What `onevcs` says of a text that is no span.
pub uninterp spec fn span_refusal(text: Seq<char>) -> Seq<char>;

/// A span of time, as the schedule spells one.
#[derive(Debug, PartialEq, Eq)]
pub struct Span {
    /// The span, written.
    pub spelled: String,
}

impl Clone for Span {
    fn clone(&self) -> (r: Self)
        ensures
            r == *self,
    {
        Span { spelled: self.spelled.clone() }
    }
}

/// The `FromStr` and `Display` of `onevcs::Span`: a text that spells a span comes
/// back as that span is written, and any other is refused in that library's own
/// words.
#[verifier::external_body]
fn spell_span(text: &str) -> (r: Result<String, String>)
    ensures
        match r {
            Ok(spelled) => span_of(text@) is Some && spelled@ == span_text(span_of(text@)->0),
            Err(why) => span_of(text@) is None && why@ == span_refusal(text@),
        },
{
    text.parse::<onevcs::Span>().map(|span| span.to_string())
}

/// What a rule of the schedule applies to. At least one field is named, and the
/// ones that are must all match.
#[derive(Debug, PartialEq, Eq)]
pub struct RuleMatch {
    /// The identity's host.
    pub host: Option<String>,
    /// The identity's owner.
    pub owner: Option<String>,
    /// The repository's name.
    pub name: Option<String>,
    /// A checkout path glob.
    pub path: Option<String>,
}

/// A match, as contracts speak of it.
#[verifier::ext_equal]
pub struct MatchModel {
    pub host: Option<Seq<char>>,
    pub owner: Option<Seq<char>>,
    pub name: Option<Seq<char>>,
    pub path: Option<Seq<char>>,
}

impl View for RuleMatch {
    type V = MatchModel;

    open spec fn view(&self) -> MatchModel {
        MatchModel {
            host: text_of(self.host),
            owner: text_of(self.owner),
            name: text_of(self.name),
            path: text_of(self.path),
        }
    }
}

impl Clone for RuleMatch {
    fn clone(&self) -> (r: Self)
        ensures
            r == *self,
    {
        RuleMatch {
            host: copy_text(&self.host),
            owner: copy_text(&self.owner),
            name: copy_text(&self.name),
            path: copy_text(&self.path),
        }
    }
}

/// The cadence every identity no rule matches is maintained on.
#[derive(Debug, PartialEq, Eq)]
pub struct MaintenanceDefault {
    /// How old a slot's last maintenance may be before it is due.
    pub every: Span,
}

/// One rule: which identities it applies to, and their cadence.
#[derive(Debug, PartialEq, Eq)]
pub struct MaintenanceRule {
    /// What it applies to.
    pub matches: RuleMatch,
    /// The cadence for the identities it matches.
    pub every: Span,
}

/// The schedule document a launch names.
#[derive(Debug, PartialEq, Eq)]
pub struct MaintenanceConfig {
    /// The schema version.
    pub version: u32,
    /// The cadence every identity no rule matches is maintained on.
    pub default: MaintenanceDefault,
    /// The rules, first match wins.
    pub rules: Vec<MaintenanceRule>,
}

/// What a value that should spell a span is refused with.
pub open spec fn every_fault(value: Json) -> Option<Seq<char>> {
    match value {
        Json::Text(spelled) => if span_of(spelled@) is Some {
            None
        } else {
            Some("`every`: "@ + span_refusal(spelled@))
        },
        other => Some(
            "`every` holds "@ + rendered(other)
                + ", which is not a span — write digits then one of s, m, h or d, such as 7d"@,
        ),
    }
}

/// The span a value spells, as it is written.
pub open spec fn every_in(value: Option<Json>) -> Seq<char> {
    match value {
        Some(Json::Text(spelled)) => span_text(span_of(spelled@)->0),
        _ => Seq::empty(),
    }
}

/// Read a span as its own grammar reads one, refused by this key's name.
pub fn every(value: &Json) -> (r: Result<Span, String>)
    ensures
        match r {
            Ok(span) => every_fault(*value) is None && span.spelled@ == every_in(Some(*value)),
            Err(why) => every_fault(*value) == Some(why@),
        },
{
    match value {
        Json::Text(spelled) => match spell_span(spelled.as_str()) {
            Ok(spelled) => Ok(Span { spelled }),
            Err(refused) => {
                let mut why: String = String::from_str("`every`: ");
                why.append(refused.as_str());
                Err(why)
            },
        },
        other => {
            let held = json::render(other);
            let mut why: String = String::from_str("`every` holds ");
            why.append(held.as_str());
            why.append(
                ", which is not a span — write digits then one of s, m, h or d, such as 7d",
            );
            Err(why)
        },
    }
}

/// What `serde_json` reads the JSON of a text as through the `RuleMatch` of
/// `onevcs`, or what it refuses that with.
pub uninterp spec fn match_read(text: Seq<char>) -> Result<MatchModel, Seq<char>>;

/// `serde_json::from_value` of the value a text writes, as the `RuleMatch` of
/// `onevcs`: its four fields as they were read, or the refusal in that library's
/// own words. Which texts are refused is left to the name.
#[verifier::external_body]
fn parse_match(text: &str) -> (r: Result<RuleMatch, String>)
    ensures
        match r {
            Ok(read) => match_read(text@) is Ok && match_read(text@)->Ok_0 == read@,
            Err(why) => match_read(text@) is Err && match_read(text@)->Err_0 == why@,
        },
{
    serde_json::from_str::<serde_json::Value>(text)
        .and_then(serde_json::from_value::<onevcs::rules::RuleMatch>)
        .map(|m| RuleMatch { host: m.host, owner: m.owner, name: m.name, path: m.path })
        .map_err(|why| why.to_string())
}

/// One field of a match among those it names, where it is set.
pub open spec fn set_field(name: Seq<char>, value: Option<Seq<char>>) -> Seq<
    (Seq<char>, Seq<char>),
> {
    match value {
        Some(value) => seq![(name, value)],
        None => Seq::empty(),
    }
}

/// The fields a match sets, by name and value, in the order its type declares
/// them.
pub open spec fn set_fields(read: MatchModel) -> Seq<(Seq<char>, Seq<char>)> {
    set_field("host"@, read.host) + set_field("owner"@, read.owner) + set_field(
        "name"@,
        read.name,
    ) + set_field("path"@, read.path)
}

/// `serde_json::to_value` of the `RuleMatch` of `onevcs`: a field that is not set is
/// left out, one that is stands as a string under its own name, and they come in
/// the order the type declares them. What is written reads back as what was
/// written.
#[verifier::external_body]
fn kept_fields(read: &RuleMatch) -> (r: Vec<(String, Json)>)
    ensures
        json::all_texts(r@, set_fields(read@)),
        match_read(rendered(Json::Object(r))) is Ok,
        match_read(rendered(Json::Object(r)))->Ok_0 == read@,
{
    let RuleMatch { host, owner, name, path } = read.clone();
    match serde_json::to_value(onevcs::rules::RuleMatch { host, owner, name, path }) {
        Ok(serde_json::Value::Object(kept)) => kept
            .into_iter()
            .map(|(key, value)| (key, Json::Text(value.as_str().unwrap_or_default().to_string())))
            .collect(),
        _ => Vec::new(),
    }
}

/// A name is among those a match kept.
pub open spec fn is_kept(kept: Seq<Seq<char>>, name: Seq<char>) -> bool {
    exists|i: int| 0 <= i < kept.len() && #[trigger] kept[i] == name
}

/// The first field of a match that reading it did not keep: one that a match does
/// not have.
pub open spec fn stray_match(
    fields: Seq<(String, Json)>,
    kept: Seq<Seq<char>>,
    from: int,
) -> Option<Seq<char>>
    decreases fields.len() - from,
{
    if from < 0 || from >= fields.len() {
        None
    } else if !is_kept(kept, fields[from].0@) {
        Some(fields[from].0@)
    } else {
        stray_match(fields, kept, from + 1)
    }
}

/// What is wrong with a match, from the names that reading it kept: a field that
/// was not kept, or none kept at all.
pub open spec fn kept_fault(fields: Seq<(String, Json)>, kept: Seq<Seq<char>>) -> Option<
    Seq<char>,
> {
    match stray_match(fields, kept, 0) {
        Some(unknown) => Some(
            "`match` names `"@ + unknown + "`, which is not a field a match has"@ + (if kept.len()
                == 0 {
                ""@
            } else {
                "; it names "@ + join(kept, ", "@)
            }),
        ),
        None => if kept.len() == 0 {
            Some(
                "`match` names no field — a rule matches on at least one of the identity's host, owner, name or path"@,
            )
        } else {
            None
        },
    }
}

/// The names of the fields a match sets.
pub open spec fn set_names(read: MatchModel) -> Seq<Seq<char>> {
    set_fields(read).map_values(|field: (Seq<char>, Seq<char>)| field.0)
}

/// What is wrong with the fields of a rule's `match`.
pub open spec fn match_fault(fields: Vec<(String, Json)>) -> Option<Seq<char>> {
    match match_read(rendered(Json::Object(fields))) {
        Err(why) => Some("`match`: "@ + why),
        Ok(read) => kept_fault(fields@, set_names(read)),
    }
}

fn keeps(kept: &Vec<String>, name: &str) -> (r: bool)
    ensures
        r == is_kept(texts(kept@), name@),
{
    let mut i: usize = 0;
    while i < kept.len()
        invariant
            i <= kept@.len(),
            forall|j: int| 0 <= j < i ==> #[trigger] texts(kept@)[j] != name@,
        decreases kept@.len() - i,
    {
        if text::same(kept[i].as_str(), name) {
            assert(texts(kept@)[i as int] == name@);
            return true;
        }
        i += 1;
    }
    false
}

/// What a match that was read comes to, from the names that reading it kept: the
/// document's keys are held against what the type kept, so a key that did not
/// survive is one the vocabulary has no field for.
pub fn whole_match(fields: &Vec<(String, Json)>, read: RuleMatch, kept: &Vec<String>) -> (r: Result<
    RuleMatch,
    String,
>)
    ensures
        match r {
            Ok(whole) => kept_fault(fields@, texts(kept@)) is None && whole == read,
            Err(why) => kept_fault(fields@, texts(kept@)) == Some(why@),
        },
{
    assert(texts(kept@).len() == kept@.len());
    let mut i: usize = 0;
    while i < fields.len()
        invariant
            i <= fields@.len(),
            texts(kept@).len() == kept@.len(),
            stray_match(fields@, texts(kept@), 0) == stray_match(fields@, texts(kept@), i as int),
        decreases fields@.len() - i,
    {
        if !keeps(kept, fields[i].0.as_str()) {
            let mut why: String = String::from_str("`match` names `");
            why.append(fields[i].0.as_str());
            why.append("`, which is not a field a match has");
            let mut tail: String = String::from_str("");
            if kept.len() > 0 {
                let known = text::joined(kept, ", ");
                tail = String::from_str("; it names ");
                tail.append(known.as_str());
            }
            why.append(tail.as_str());
            return Err(why);
        }
        i += 1;
    }
    if kept.len() == 0 {
        return Err(
            "`match` names no field — a rule matches on at least one of the identity's host, owner, name or path".to_owned(),
        );
    }
    Ok(read)
}

fn names_of(fields: &Vec<(String, Json)>) -> (r: Vec<String>)
    ensures
        texts(r@) == record::names(fields@),
{
    let mut out: Vec<String> = Vec::new();
    let mut i: usize = 0;
    while i < fields.len()
        invariant
            i <= fields@.len(),
            texts(out@) == record::names(fields@).take(i as int),
        decreases fields@.len() - i,
    {
        let ghost was = texts(out@);
        out.push(fields[i].0.clone());
        i += 1;
        assert(texts(out@) =~= was.push(fields@[i - 1].0@));
        assert(texts(out@) =~= record::names(fields@).take(i as int));
    }
    assert(texts(out@) =~= record::names(fields@));
    out
}

fn read_match_fields(value: &Json) -> (r: Result<RuleMatch, String>)
    requires
        value is Object,
    ensures
        match r {
            Ok(read) => match_fault(value->Object_0) is None && match_read(rendered(*value))
                == Ok::<MatchModel, Seq<char>>(read@),
            Err(why) => match_fault(value->Object_0) == Some(why@),
        },
{
    let written = json::render(value);
    let read = match parse_match(written.as_str()) {
        Ok(read) => read,
        Err(refused) => {
            let mut why: String = String::from_str("`match`: ");
            why.append(refused.as_str());
            return Err(why);
        },
    };
    let kept = kept_fields(&read);
    let names = names_of(&kept);
    assert(texts(names@) =~= set_names(read@));
    match value {
        Json::Object(fields) => whole_match(fields, read, &names),
        _ => Ok(read),
    }
}

/// Read the fields of a `match`, refusing one it does not have and a rule that names
/// none.
///
/// Which fields a match has is asked of the library whose matches they are, and no
/// list of them is kept here.
pub fn matching(fields: Vec<(String, Json)>) -> (r: Result<RuleMatch, String>)
    ensures
        match r {
            Ok(read) => match_fault(fields) is None && match_read(rendered(Json::Object(fields)))
                == Ok::<MatchModel, Seq<char>>(read@),
            Err(why) => match_fault(fields) == Some(why@),
        },
{
    read_match_fields(&Json::Object(fields))
}

/// A field found by its name stands among the fields, under that name.
proof fn lemma_found(fields: Seq<(String, Json)>, name: Seq<char>, from: int)
    requires
        0 <= from,
    ensures
        match json::field_at(fields, name, from) {
            Some(i) => from <= i < fields.len() && fields[i].0@ == name,
            None => true,
        },
    decreases fields.len() - from,
{
    if from < fields.len() && fields[from].0@ != name {
        lemma_found(fields, name, from + 1);
    }
}

/// A value is a schedule's `default`: a mapping of a span under `every` and nothing else.
pub open spec fn is_default(value: Json) -> bool {
    value matches Json::Object(fields) && {
        &&& forall|i: int|
            0 <= i < fields@.len() ==> (#[trigger] fields@[i]).0@ == "every"@ && every_fault(
                fields@[i].1,
            ) is None
        &&& field_in(fields@, "every"@) is Some
    }
}

fn read_default(value: &Json) -> (r: Option<MaintenanceDefault>)
    ensures
        match r {
            Some(read) => is_default(*value) && read.every.spelled@ == every_in(
                field_in(value->Object_0@, "every"@),
            ),
            None => !is_default(*value),
        },
{
    let fields: &Vec<(String, Json)> = match value {
        Json::Object(fields) => fields,
        _ => {
            return None;
        },
    };
    let mut i: usize = 0;
    while i < fields.len()
        invariant
            *value == Json::Object(*fields),
            i <= fields@.len(),
            forall|j: int|
                0 <= j < i ==> (#[trigger] fields@[j]).0@ == "every"@ && every_fault(fields@[j].1)
                    is None,
        decreases fields@.len() - i,
    {
        if !text::same(fields[i].0.as_str(), "every") || every(&fields[i].1).is_err() {
            assert(!(fields@[i as int].0@ == "every"@ && every_fault(fields@[i as int].1) is None));
            return None;
        }
        i += 1;
    }
    match json::field(fields, "every") {
        None => None,
        Some(value) => {
            proof {
                lemma_found(fields@, "every"@, 0);
            }
            match every(value) {
                Ok(every) => Some(MaintenanceDefault { every }),
                Err(_) => None,
            }
        },
    }
}

/// A field of a rule: its `match`, or a span under `every`.
pub open spec fn is_rule_field(field: (String, Json)) -> bool {
    if field.0@ == "match"@ {
        field.1 matches Json::Object(named) && match_fault(named) is None
    } else {
        field.0@ == "every"@ && every_fault(field.1) is None
    }
}

/// A value is a rule of a schedule: a mapping of a `match` and a span under `every`, and
/// nothing else.
pub open spec fn is_rule(value: Json) -> bool {
    value matches Json::Object(fields) && {
        &&& forall|i: int| 0 <= i < fields@.len() ==> is_rule_field(#[trigger] fields@[i])
        &&& field_in(fields@, "match"@) is Some
        &&& field_in(fields@, "every"@) is Some
    }
}

proof fn lemma_rule_fields(fields: Seq<(String, Json)>)
    requires
        forall|i: int| 0 <= i < fields.len() ==> is_rule_field(#[trigger] fields[i]),
    ensures
        match field_in(fields, "every"@) {
            Some(value) => every_fault(value) is None,
            None => true,
        },
        match field_in(fields, "match"@) {
            Some(value) => value matches Json::Object(named) && match_fault(named) is None,
            None => true,
        },
{
    reveal_strlit("every");
    reveal_strlit("match");
    assert("every"@[0] != "match"@[0]);
    lemma_found(fields, "every"@, 0);
    lemma_found(fields, "match"@, 0);
}

/// A rule, as contracts speak of it: the four fields of its match, and its
/// cadence.
#[verifier::ext_equal]
pub struct RuleModel {
    pub host: Option<Seq<char>>,
    pub owner: Option<Seq<char>>,
    pub name: Option<Seq<char>>,
    pub path: Option<Seq<char>>,
    pub every: Seq<char>,
}

impl View for MaintenanceRule {
    type V = RuleModel;

    open spec fn view(&self) -> RuleModel {
        RuleModel {
            host: text_of(self.matches.host),
            owner: text_of(self.matches.owner),
            name: text_of(self.matches.name),
            path: text_of(self.matches.path),
            every: self.every.spelled@,
        }
    }
}

/// The rule a value declares.
pub open spec fn rule_of(value: Json) -> RuleModel {
    let fields = value->Object_0@;
    let named = match_read(rendered(field_in(fields, "match"@)->0))->Ok_0;
    RuleModel {
        host: named.host,
        owner: named.owner,
        name: named.name,
        path: named.path,
        every: every_in(field_in(fields, "every"@)),
    }
}

/// The fields of a mapping, read as a `match`.
fn read_match(value: &Json) -> (r: Option<RuleMatch>)
    ensures
        match r {
            Some(read) => (*value matches Json::Object(named) && match_fault(named) is None)
                && match_read(rendered(*value)) == Ok::<MatchModel, Seq<char>>(read@),
            None => !(*value matches Json::Object(named) && match_fault(named) is None),
        },
{
    match value {
        Json::Object(_) => match read_match_fields(value) {
            Ok(read) => Some(read),
            Err(_) => None,
        },
        _ => None,
    }
}

fn read_rule(value: &Json) -> (r: Option<MaintenanceRule>)
    ensures
        match r {
            Some(rule) => is_rule(*value) && rule@ == rule_of(*value),
            None => !is_rule(*value),
        },
{
    let fields: &Vec<(String, Json)> = match value {
        Json::Object(fields) => fields,
        _ => {
            return None;
        },
    };
    let mut i: usize = 0;
    while i < fields.len()
        invariant
            *value == Json::Object(*fields),
            i <= fields@.len(),
            forall|j: int| 0 <= j < i ==> is_rule_field(#[trigger] fields@[j]),
        decreases fields@.len() - i,
    {
        let known: bool = if text::same(fields[i].0.as_str(), "match") {
            read_match(&fields[i].1).is_some()
        } else {
            text::same(fields[i].0.as_str(), "every") && every(&fields[i].1).is_ok()
        };
        if !known {
            assert(!is_rule_field(fields@[i as int]));
            return None;
        }
        i += 1;
    }
    proof {
        lemma_rule_fields(fields@);
    }
    match (json::field(fields, "match"), json::field(fields, "every")) {
        (Some(named), Some(span)) => match (read_match(named), every(span)) {
            (Some(matches), Ok(every)) => Some(MaintenanceRule { matches, every }),
            _ => None,
        },
        _ => None,
    }
}

/// The rules of a list, as contracts speak of them.
pub open spec fn rule_models(rules: Seq<MaintenanceRule>) -> Seq<RuleModel> {
    rules.map_values(|r: MaintenanceRule| r@)
}

/// Values are the rules of a schedule.
pub open spec fn are_rules(rules: Seq<Json>) -> bool {
    forall|i: int| 0 <= i < rules.len() ==> is_rule(#[trigger] rules[i])
}

fn read_rules(list: &Vec<Json>) -> (r: Option<Vec<MaintenanceRule>>)
    ensures
        match r {
            Some(rules) => are_rules(list@) && rule_models(rules@) == list@.map_values(
                |v: Json| rule_of(v),
            ),
            None => !are_rules(list@),
        },
{
    let mut out: Vec<MaintenanceRule> = Vec::new();
    let mut i: usize = 0;
    while i < list.len()
        invariant
            i <= list@.len(),
            forall|j: int| 0 <= j < i ==> is_rule(#[trigger] list@[j]),
            rule_models(out@) == list@.map_values(|v: Json| rule_of(v)).take(i as int),
        decreases list@.len() - i,
    {
        match read_rule(&list[i]) {
            Some(rule) => {
                let ghost was = out@;
                out.push(rule);
                assert(rule_models(out@) =~= rule_models(was).push(rule@));
            },
            None => {
                assert(!is_rule(list@[i as int]));
                return None;
            },
        }
        i += 1;
        assert(rule_models(out@) =~= list@.map_values(|v: Json| rule_of(v)).take(i as int));
    }
    assert(rule_models(out@) =~= list@.map_values(|v: Json| rule_of(v)));
    Some(out)
}

/// A field of a schedule.
pub open spec fn is_schedule_field(field: (String, Json)) -> bool {
    if field.0@ == "version"@ {
        field.1 matches Json::Count(n) && n <= u32::MAX
    } else if field.0@ == "default"@ {
        is_default(field.1)
    } else {
        field.0@ == "rules"@ && (field.1 matches Json::List(rules) && are_rules(rules@))
    }
}

/// A document has the shape of a schedule: a mapping of a version that is a number of 32
/// bits, a `default`, and a list of rules that may be absent, and nothing else.
pub open spec fn is_schedule(document: Json) -> bool {
    document matches Json::Object(fields) && {
        &&& forall|i: int| 0 <= i < fields@.len() ==> is_schedule_field(#[trigger] fields@[i])
        &&& field_in(fields@, "version"@) is Some
        &&& field_in(fields@, "default"@) is Some
    }
}

/// What a schedule is refused with by the version it declares.
pub open spec fn version_fault(version: u32) -> Option<Seq<char>> {
    if version != SCHEDULE_VERSION {
        Some(
            "`version` is "@ + dec(version as nat) + ", and this build reads "@ + dec(
                SCHEDULE_VERSION as nat,
            ) + " — set `version: "@ + dec(SCHEDULE_VERSION as nat) + "`"@,
        )
    } else {
        None
    }
}

/// A schedule, as contracts speak of it.
#[verifier::ext_equal]
pub struct ScheduleModel {
    pub version: u32,
    pub every: Seq<char>,
    pub rules: Seq<RuleModel>,
}

impl View for MaintenanceConfig {
    type V = ScheduleModel;

    open spec fn view(&self) -> ScheduleModel {
        ScheduleModel {
            version: self.version,
            every: self.default.every.spelled@,
            rules: rule_models(self.rules@),
        }
    }
}

/// The schedule a document declares.
pub open spec fn schedule_of(document: Json) -> ScheduleModel {
    let fields = document->Object_0@;
    ScheduleModel {
        version: json::count_in(field_in(fields, "version"@))->0 as u32,
        every: every_in(field_in(field_in(fields, "default"@)->0->Object_0@, "every"@)),
        rules: match field_in(fields, "rules"@) {
            Some(Json::List(rules)) => rules@.map_values(|v: Json| rule_of(v)),
            _ => Seq::empty(),
        },
    }
}

proof fn lemma_schedule_fields(fields: Seq<(String, Json)>)
    requires
        forall|i: int| 0 <= i < fields.len() ==> is_schedule_field(#[trigger] fields[i]),
    ensures
        match field_in(fields, "version"@) {
            Some(value) => value matches Json::Count(n) && n <= u32::MAX,
            None => true,
        },
        match field_in(fields, "default"@) {
            Some(value) => is_default(value),
            None => true,
        },
        match field_in(fields, "rules"@) {
            Some(value) => value matches Json::List(rules) && are_rules(rules@),
            None => true,
        },
{
    reveal_strlit("version");
    reveal_strlit("default");
    reveal_strlit("rules");
    assert("version"@[0] != "default"@[0]);
    assert("version"@[0] != "rules"@[0]);
    assert("default"@[0] != "rules"@[0]);
    lemma_found(fields, "version"@, 0);
    lemma_found(fields, "default"@, 0);
    lemma_found(fields, "rules"@, 0);
}

impl MaintenanceConfig {
    /// The schedule a document is, at whatever version it declares, or nothing where it
    /// is not one.
    pub fn read(document: &Json) -> (r: Option<Self>)
        ensures
            match r {
                Some(config) => is_schedule(*document) && config@ == schedule_of(*document),
                None => !is_schedule(*document),
            },
    {
        let fields: &Vec<(String, Json)> = match document {
            Json::Object(fields) => fields,
            _ => {
                return None;
            },
        };
        let mut i: usize = 0;
        while i < fields.len()
            invariant
                *document == Json::Object(*fields),
                i <= fields@.len(),
                forall|j: int| 0 <= j < i ==> is_schedule_field(#[trigger] fields@[j]),
            decreases fields@.len() - i,
        {
            let name = fields[i].0.as_str();
            let known: bool = if text::same(name, "version") {
                match &fields[i].1 {
                    Json::Count(n) => *n <= u32::MAX as u64,
                    _ => false,
                }
            } else if text::same(name, "default") {
                read_default(&fields[i].1).is_some()
            } else if text::same(name, "rules") {
                match &fields[i].1 {
                    Json::List(rules) => read_rules(rules).is_some(),
                    _ => false,
                }
            } else {
                false
            };
            if !known {
                assert(!is_schedule_field(fields@[i as int]));
                return None;
            }
            i += 1;
        }
        proof {
            lemma_schedule_fields(fields@);
        }
        let version: u32 = match json::field(fields, "version") {
            Some(Json::Count(n)) => *n as u32,
            _ => {
                return None;
            },
        };
        let default = match json::field(fields, "default") {
            Some(value) => match read_default(value) {
                Some(default) => default,
                None => {
                    return None;
                },
            },
            None => {
                return None;
            },
        };
        let rules: Vec<MaintenanceRule> = match json::field(fields, "rules") {
            Some(Json::List(list)) => match read_rules(list) {
                Some(rules) => rules,
                None => {
                    return None;
                },
            },
            _ => Vec::new(),
        };
        assert(field_in(fields@, "rules"@) is None ==> rule_models(rules@) =~= Seq::<
            RuleModel,
        >::empty());
        Some(MaintenanceConfig { version, default, rules })
    }

    /// The schedule a file holds, from what its text was read as: refused in its reader's
    /// words where it was not read, and by its number where it declares a version this
    /// build does not read.
    ///
    /// `spelling` is what carried the path — the flag or the launch-config key —
    /// and every refusal opens with it and the path, so an operator reads which of
    /// the two documents to fix.
    pub fn load(spelling: &str, path: &str, read: Result<MaintenanceConfig, String>) -> (r: Result<
        Self,
        Error,
    >)
        ensures
            ({
                let fault = match read {
                    Err(failure) => Some(failure@),
                    Ok(config) => version_fault(config.version),
                };
                match fault {
                    None => r == Ok::<MaintenanceConfig, Error>(read->Ok_0),
                    Some(why) => r matches Err(Error::Invalid(said)) && said@ == spelling@ + " "@
                        + path@ + ": "@ + why,
                }
            }),
    {
        let why: String = match read {
            Err(why) => why,
            Ok(config) => {
                if config.version == SCHEDULE_VERSION {
                    return Ok(config);
                }
                let mut why: String = String::from_str("`version` is ");
                text::push_dec(&mut why, config.version as u64);
                why.append(", and this build reads ");
                text::push_dec(&mut why, SCHEDULE_VERSION as u64);
                why.append(" — set `version: ");
                text::push_dec(&mut why, SCHEDULE_VERSION as u64);
                why.append("`");
                why
            },
        };
        let mut out: String = String::from_str(spelling);
        out.append(" ");
        out.append(path);
        out.append(": ");
        out.append(why.as_str());
        Err(Error::Invalid(out))
    }

    /// What each rule applies to, in order.
    pub fn criteria(&self) -> (r: Vec<RuleMatch>)
        ensures
            r@ == self.rules@.map_values(|rule: MaintenanceRule| rule.matches),
    {
        let mut out: Vec<RuleMatch> = Vec::new();
        let mut i: usize = 0;
        while i < self.rules.len()
            invariant
                i <= self.rules@.len(),
                out@ == self.rules@.map_values(|rule: MaintenanceRule| rule.matches).take(
                    i as int,
                ),
            decreases self.rules@.len() - i,
        {
            out.push(self.rules[i].matches.clone());
            i += 1;
            assert(out@ =~= self.rules@.map_values(|rule: MaintenanceRule| rule.matches).take(
                i as int,
            ));
        }
        assert(out@ =~= self.rules@.map_values(|rule: MaintenanceRule| rule.matches));
        out
    }

    /// The cadence one identity is maintained on, from which of the criteria its
    /// resolution matched first: that rule's, else the default's, and the refusal
    /// of an identity that resolves to nothing.
    pub fn every_for(&self, matched: Result<Option<usize>, String>) -> (r: Result<Span, String>)
        requires
            matched matches Ok(Some(index)) ==> index < self.rules@.len(),
        ensures
            r == (match matched {
                Ok(Some(index)) => Ok::<Span, String>(self.rules@[index as int].every),
                Ok(None) => Ok::<Span, String>(self.default.every),
                Err(why) => Err::<Span, String>(why),
            }),
    {
        match matched {
            Ok(Some(index)) => Ok(self.rules[index].every.clone()),
            Ok(None) => Ok(self.default.every.clone()),
            Err(why) => Err(why),
        }
    }
}

/// A text that is a span as one is written.
pub open spec fn written_span(text: Seq<char>) -> bool {
    span_of(text) is Some && span_text(span_of(text)->0) == text
}

/// A rule a document can declare: it names something, on a span as one is written.
pub open spec fn declarable(rule: RuleModel) -> bool {
    &&& written_span(rule.every)
    &&& rule.host is Some || rule.owner is Some || rule.name is Some || rule.path is Some
}

/// A schedule a document can declare.
pub open spec fn sound(schedule: ScheduleModel) -> bool {
    &&& written_span(schedule.every)
    &&& forall|i: int| 0 <= i < schedule.rules.len() ==> declarable(#[trigger] schedule.rules[i])
}

proof fn lemma_span_again(text: Seq<char>)
    requires
        span_of(text) is Some,
    ensures
        written_span(span_text(span_of(text)->0)),
{
    let span = span_of(text)->0;
    text::lemma_dec_reads(span.0);
    assert(span_text(span).drop_last() =~= dec(span.0));
}

/// Fields that are each kept are none of them stray.
proof fn lemma_no_stray(fields: Seq<(String, Json)>, kept: Seq<Seq<char>>, from: int)
    requires
        0 <= from,
        forall|i: int| 0 <= i < fields.len() ==> is_kept(kept, (#[trigger] fields[i]).0@),
    ensures
        stray_match(fields, kept, from) is None,
    decreases fields.len() - from,
{
    if from < fields.len() {
        assert(is_kept(kept, fields[from].0@));
        lemma_no_stray(fields, kept, from + 1);
    }
}

fn write_match(matches: &RuleMatch) -> (r: Json)
    ensures
        r is Object,
        match_read(rendered(r)) == Ok::<MatchModel, Seq<char>>(matches@),
        matches.host is Some || matches.owner is Some || matches.name is Some || matches.path
            is Some ==> match_fault(r->Object_0) is None,
{
    let fields = kept_fields(matches);
    let r = Json::Object(fields);
    proof {
        let set = set_fields(matches@);
        let kept = set_names(matches@);
        assert forall|i: int| 0 <= i < fields@.len() implies is_kept(
            kept,
            (#[trigger] fields@[i]).0@,
        ) by {
            assert(kept[i] == set[i].0);
        }
        lemma_no_stray(fields@, kept, 0);
    }
    r
}

fn write_rule(rule: &MaintenanceRule) -> (r: Json)
    ensures
        r is Object,
        declarable(rule@) ==> is_rule(r) && rule_of(r) == rule@,
{
    let mut fields: Vec<(String, Json)> = Vec::new();
    let matches = write_match(&rule.matches);
    fields.push(("match".to_owned(), matches));
    fields.push(("every".to_owned(), Json::Text(rule.every.spelled.clone())));
    let r = Json::Object(fields);
    proof {
        reveal_strlit("every");
        reveal_strlit("match");
        assert("every"@[0] != "match"@[0]);
        reveal_with_fuel(json::field_at, 3);
        assert(field_in(fields@, "match"@) == Some(matches));
        assert(field_in(fields@, "every"@) == Some(fields@[1].1));
    }
    r
}

fn write_rules(rules: &Vec<MaintenanceRule>) -> (r: Vec<Json>)
    ensures
        r@.len() == rules@.len(),
        (forall|i: int| 0 <= i < rules@.len() ==> declarable(#[trigger] rule_models(rules@)[i]))
            ==> are_rules(r@) && r@.map_values(|v: Json| rule_of(v)) == rule_models(
            rules@,
        ),
{
    let mut out: Vec<Json> = Vec::new();
    let mut i: usize = 0;
    while i < rules.len()
        invariant
            i <= rules@.len(),
            out@.len() == i,
            forall|j: int|
                #![trigger out@[j]]
                0 <= j < i && declarable(rules@[j]@) ==> is_rule(out@[j]) && rule_of(
                    out@[j],
                ) == rules@[j]@,
        decreases rules@.len() - i,
    {
        out.push(write_rule(&rules[i]));
        i += 1;
    }
    proof {
        if forall|i: int| 0 <= i < rules@.len() ==> declarable(#[trigger] rule_models(rules@)[i]) {
            assert forall|j: int| 0 <= j < out@.len() implies is_rule(#[trigger] out@[j])
                && rule_of(out@[j]) == rules@[j]@ by {
                assert(declarable(rule_models(rules@)[j]));
            }
            assert(out@.map_values(|v: Json| rule_of(v)) =~= rule_models(rules@));
        }
    }
    out
}

impl MaintenanceConfig {
    /// This schedule as a document writes it: a list of no rules is left out. What is
    /// written of a schedule a document can declare reads back as that schedule.
    pub fn to_json(&self) -> (r: Json)
        ensures
            r matches Json::Object(fields) && record::names(fields@) == (if self.rules@.len() > 0 {
                seq!["version"@, "default"@, "rules"@]
            } else {
                seq!["version"@, "default"@]
            }),
            sound(self@) ==> is_schedule(r) && schedule_of(r) == self@,
    {
        let mut default: Vec<(String, Json)> = Vec::new();
        default.push(("every".to_owned(), Json::Text(self.default.every.spelled.clone())));
        let ghost declared = default@;
        let mut fields: Vec<(String, Json)> = Vec::new();
        fields.push(("version".to_owned(), Json::Count(self.version as u64)));
        fields.push(("default".to_owned(), Json::Object(default)));
        assert(record::names(fields@) =~= seq!["version"@, "default"@]);
        if self.rules.len() > 0 {
            let rules = write_rules(&self.rules);
            fields.push(("rules".to_owned(), Json::List(rules)));
            assert(record::names(fields@) =~= seq!["version"@, "default"@, "rules"@]);
        }
        let r = Json::Object(fields);
        proof {
            reveal_strlit("version");
            reveal_strlit("default");
            reveal_strlit("rules");
            assert("version"@[0] != "default"@[0]);
            assert("version"@[0] != "rules"@[0]);
            assert("default"@[0] != "rules"@[0]);
            reveal_with_fuel(json::field_at, 4);
            assert(field_in(declared, "every"@) == Some(declared[0].1));
            assert(field_in(fields@, "version"@) == Some(fields@[0].1));
            assert(field_in(fields@, "default"@) == Some(fields@[1].1));
            if sound(self@) {
                assert(is_default(fields@[1].1));
                if self.rules@.len() > 0 {
                    assert(field_in(fields@, "rules"@) == Some(fields@[2].1));
                    assert forall|i: int| 0 <= i < self.rules@.len() implies declarable(
                        #[trigger] rule_models(self.rules@)[i],
                    ) by {
                        assert(declarable(self@.rules[i]));
                    }
                } else {
                    assert(field_in(fields@, "rules"@) is None);
                    assert(rule_models(self.rules@) =~= Seq::<RuleModel>::empty());
                }
                assert forall|i: int| 0 <= i < fields@.len() implies is_schedule_field(
                    #[trigger] fields@[i],
                ) by {}
                assert(schedule_of(r) =~= self@);
            }
        }
        r
    }
}

/// Every schedule that is read is one a document can declare, so it is written back as
/// a document that reads as the same schedule.
pub proof fn law_what_is_read_is_declarable(document: Json)
    requires
        is_schedule(document),
    ensures
        sound(schedule_of(document)),
{
    let fields = document->Object_0@;
    lemma_schedule_fields(fields);
    let default = field_in(fields, "default"@)->0->Object_0@;
    lemma_found(default, "every"@, 0);
    lemma_every(field_in(default, "every"@)->0);
    let rules = schedule_of(document).rules;
    assert forall|i: int| 0 <= i < rules.len() implies declarable(#[trigger] rules[i]) by {
        let list = field_in(fields, "rules"@)->0->List_0@;
        assert(is_rule(list[i]));
        lemma_declared(list[i]);
    }
}

proof fn lemma_every(value: Json)
    requires
        every_fault(value) is None,
    ensures
        written_span(every_in(Some(value))),
{
    lemma_span_again(value->Text_0@);
}

proof fn lemma_declared(value: Json)
    requires
        is_rule(value),
    ensures
        declarable(rule_of(value)),
{
    let fields = value->Object_0@;
    lemma_rule_fields(fields);
    lemma_every(field_in(fields, "every"@)->0);
}

/// Which texts spell a span: a number above zero and one of the four unit letters, as long
/// as its seconds fit 64 bits — sixty to the minute, sixty minutes to the hour and
/// twenty-four hours to the day.
pub proof fn law_which_texts_spell_a_span(n: nat, unit: char)
    ensures
        ({
            let text = dec(n).push(unit);
            let seconds = if unit == 's' {
                n
            } else if unit == 'm' {
                n * 60
            } else if unit == 'h' {
                n * 60 * 60
            } else {
                n * 60 * 60 * 24
            };
            &&& span_of(text) is Some <==> n > 0 && (unit == 's' || unit == 'm' || unit == 'h'
                || unit == 'd') && seconds <= u64::MAX
            &&& span_of(text) is Some ==> span_of(text) == Some((n, unit)) && span_text(
                span_of(text)->0,
            ) == text
        }),
{
    text::lemma_dec_reads(n);
    let text = dec(n).push(unit);
    assert(text.drop_last() =~= dec(n));
    assert(text.last() == unit);
    let each = unit_seconds(unit);
    if unit == 's' {
        assert(n * each == n) by (nonlinear_arith)
            requires
                each == 1,
        ;
    } else if unit == 'm' {
        assert(n * each == n * 60) by (nonlinear_arith)
            requires
                each == 60,
        ;
    } else if unit == 'h' {
        assert(n * each == n * 60 * 60) by (nonlinear_arith)
            requires
                each == 3600,
        ;
    } else {
        assert(n * each == n * 60 * 60 * 24) by (nonlinear_arith)
            requires
                each == 86400,
        ;
    }
}

/// A text that does not end in a unit letter, or holds anything but digits before it, or
/// nothing, spells no span.
pub proof fn law_what_spells_no_span(text: Seq<char>, i: int)
    ensures
        text.len() < 2 ==> span_of(text) is None,
        text.len() > 0 && text.last() != 's' && text.last() != 'm' && text.last() != 'h'
            && text.last() != 'd' ==> span_of(text) is None,
        0 <= i < text.len() - 1 && !('0' as u32 <= text[i] as u32 <= '9' as u32) ==> span_of(text)
            is None,
{
    if 0 <= i < text.len() - 1 && !('0' as u32 <= text[i] as u32 <= '9' as u32) {
        assert(text.drop_last()[i] == text[i]);
        assert(!text::is_digit(text.drop_last()[i]));
        assert(!all_digits(text.drop_last()));
    }
}

proof fn lemma_stray_match(fields: Seq<(String, Json)>, kept: Seq<Seq<char>>, from: int)
    requires
        0 <= from <= fields.len(),
    ensures
        stray_match(fields, kept, from) is None <==> forall|i: int|
            from <= i < fields.len() ==> kept.contains((#[trigger] fields[i]).0@),
    decreases fields.len() - from,
{
    if from < fields.len() {
        lemma_stray_match(fields, kept, from + 1);
        assert(is_kept(kept, fields[from].0@) <==> kept.contains(fields[from].0@));
        if stray_match(fields, kept, from) is Some && kept.contains(fields[from].0@) {
            let i = choose|i: int|
                from + 1 <= i < fields.len() && !kept.contains((#[trigger] fields[i]).0@);
            assert(!kept.contains(fields[i].0@));
        }
    }
}

/// A match is taken whole or not at all: every field it names was kept in reading it, and
/// it names at least one.
pub proof fn law_a_match_is_taken_whole(fields: Seq<(String, Json)>, kept: Seq<Seq<char>>)
    ensures
        kept_fault(fields, kept) is None <==> kept.len() > 0 && forall|i: int|
            0 <= i < fields.len() ==> kept.contains((#[trigger] fields[i]).0@),
{
    lemma_stray_match(fields, kept, 0);
}

/// A cadence is a string that spells a span, and is kept as that span is written.
pub proof fn law_a_cadence_spells_a_span(value: Json)
    ensures
        every_fault(value) is None <==> value is Text && span_of(value->Text_0@) is Some,
        every_fault(value) is None ==> every_in(Some(value)) == span_text(
            span_of(value->Text_0@)->0,
        ),
{
}

/// The one version this build reads of a schedule is its first.
pub proof fn law_which_version_of_a_schedule_is_read(version: u32)
    ensures
        version_fault(version) is None <==> version == 1,
{
}

/// Which documents are schedules, key by key: a number under `version`, a mapping of just
/// `every` under `default`, and — where there are rules — a list of mappings of a `match`
/// and an `every`, and no other key at any of the three.
pub proof fn law_which_documents_are_schedules(document: Json)
    ensures
        is_schedule(document) <==> document is Object && {
            let fields = document->Object_0@;
            &&& field_in(fields, "version"@) is Some
            &&& field_in(fields, "default"@) is Some
            &&& forall|i: int|
                0 <= i < fields.len() ==> {
                    let name = (#[trigger] fields[i]).0@;
                    let value = fields[i].1;
                    ||| name == "version"@ && value is Count && value->Count_0 <= u32::MAX
                    ||| name == "default"@ && is_default(value)
                    ||| name == "rules"@ && value is List && forall|k: int|
                        0 <= k < value->List_0@.len() ==> is_rule(#[trigger] value->List_0@[k])
                }
        },
        is_rule(document) <==> document is Object && {
            let fields = document->Object_0@;
            &&& field_in(fields, "match"@) is Some
            &&& field_in(fields, "every"@) is Some
            &&& forall|i: int|
                0 <= i < fields.len() ==> {
                    let name = (#[trigger] fields[i]).0@;
                    let value = fields[i].1;
                    ||| name == "match"@ && value is Object && match_fault(value->Object_0) is None
                    ||| name == "every"@ && every_fault(value) is None
                }
        },
        is_default(document) <==> document is Object && {
            let fields = document->Object_0@;
            &&& field_in(fields, "every"@) is Some
            &&& forall|i: int|
                0 <= i < fields.len() ==> (#[trigger] fields[i]).0@ == "every"@ && every_fault(
                    fields[i].1,
                ) is None
        },
{
    reveal_strlit("version");
    reveal_strlit("default");
    reveal_strlit("rules");
    reveal_strlit("match");
    reveal_strlit("every");
    assert("version"@.len() == 7 && "default"@.len() == 7 && "rules"@.len() == 5);
    assert("version"@[0] == 'v' && "default"@[0] == 'd');
    assert("match"@[0] == 'm' && "every"@[0] == 'e');
    if document is Object {
        let fields = document->Object_0@;
        assert forall|i: int| 0 <= i < fields.len() implies (is_schedule_field(#[trigger] fields[i])
            <==> {
            let name = fields[i].0@;
            let value = fields[i].1;
            ||| name == "version"@ && value is Count && value->Count_0 <= u32::MAX
            ||| name == "default"@ && is_default(value)
            ||| name == "rules"@ && value is List && forall|k: int|
                0 <= k < value->List_0@.len() ==> is_rule(#[trigger] value->List_0@[k])
        }) by {}
        assert forall|i: int| 0 <= i < fields.len() implies (is_rule_field(#[trigger] fields[i])
            <==> {
            let name = fields[i].0@;
            let value = fields[i].1;
            ||| name == "match"@ && value is Object && match_fault(value->Object_0) is None
            ||| name == "every"@ && every_fault(value) is None
        }) by {}
    }
}

/// A schedule is read key by key: its default cadence is the one under `default`, and its
/// rules are those listed, each in its place with its own cadence; a schedule that lists
/// none has none.
pub proof fn law_a_schedule_is_read_key_by_key(fields: Vec<(String, Json)>)
    requires
        is_schedule(Json::Object(fields)),
    ensures
        ({
            let s = schedule_of(Json::Object(fields));
            let rules = field_in(fields@, "rules"@);
            &&& field_in(fields@, "version"@) == Some(Json::Count(s.version as u64))
            &&& s.every == every_in(
                field_in(field_in(fields@, "default"@)->0->Object_0@, "every"@),
            )
            &&& rules is None ==> s.rules.len() == 0
            &&& rules matches Some(Json::List(list)) ==> s.rules.len() == list@.len() && forall|
                i: int,
            |
                0 <= i < list@.len() ==> (#[trigger] s.rules[i]).every == every_in(
                    field_in(list@[i]->Object_0@, "every"@),
                )
        }),
{
    lemma_schedule_fields(fields@);
}

/// A match is seen whole.
pub proof fn law_a_match_is_seen_whole(value: RuleMatch)
    ensures
        value.host is None <==> value@.host is None,
        value.host matches Some(s) ==> value@.host == Some(s@),
        value.owner is None <==> value@.owner is None,
        value.owner matches Some(s) ==> value@.owner == Some(s@),
        value.name is None <==> value@.name is None,
        value.name matches Some(s) ==> value@.name == Some(s@),
        value.path is None <==> value@.path is None,
        value.path matches Some(s) ==> value@.path == Some(s@),
{
}

/// A rule is seen whole: what it matches on, and its cadence.
pub proof fn law_a_rule_is_seen_whole(value: MaintenanceRule)
    ensures
        value@.host == value.matches@.host,
        value@.owner == value.matches@.owner,
        value@.name == value.matches@.name,
        value@.path == value.matches@.path,
        value@.every == value.every.spelled@,
{
}

/// A schedule is seen whole, its rules in their order.
pub proof fn law_a_schedule_is_seen_whole(value: MaintenanceConfig)
    ensures
        value@.version == value.version,
        value@.every == value.default.every.spelled@,
        value@.rules.len() == value.rules@.len(),
        forall|i: int| 0 <= i < value.rules@.len() ==> #[trigger] value@.rules[i] == value.rules@[i]@,
{
}

/// A rule is read key by key: what it matches on is what its `match` was read as, field by
/// field, and its cadence is the one under `every`.
pub proof fn law_a_rule_is_read_key_by_key(fields: Vec<(String, Json)>)
    requires
        is_rule(Json::Object(fields)),
    ensures
        ({
            let rule = rule_of(Json::Object(fields));
            let named = match_read(rendered(field_in(fields@, "match"@)->0));
            &&& named is Ok
            &&& rule.host == named->Ok_0.host
            &&& rule.owner == named->Ok_0.owner
            &&& rule.name == named->Ok_0.name
            &&& rule.path == named->Ok_0.path
            &&& rule.every == every_in(field_in(fields@, "every"@))
        }),
{
    lemma_rule_fields(fields@);
}

/// The fields a match sets, by their names and in one order, and none that it does not.
pub proof fn law_which_fields_a_match_sets(read: MatchModel, name: Seq<char>, value: Seq<char>)
    ensures
        set_fields(read).contains((name, value)) <==> name == "host"@ && read.host == Some(value)
            || name == "owner"@ && read.owner == Some(value) || name == "name"@ && read.name == Some(
            value,
        ) || name == "path"@ && read.path == Some(value),
{
    let a = set_field("host"@, read.host);
    let b = set_field("owner"@, read.owner);
    let c = set_field("name"@, read.name);
    let d = set_field("path"@, read.path);
    let all = a + b + c + d;
    let one = (name, value);
    if a.len() > 0 {
        assert(all[0] == a[0]);
    }
    if b.len() > 0 {
        assert(all[a.len() as int] == b[0]);
    }
    if c.len() > 0 {
        assert(all[(a.len() + b.len()) as int] == c[0]);
    }
    if d.len() > 0 {
        assert(all[(a.len() + b.len() + c.len()) as int] == d[0]);
    }
    if all.contains(one) {
        let k = choose|k: int| 0 <= k < all.len() && all[k] == one;
        assert(k < a.len() || k == a.len() && b.len() == 1 || k == a.len() + b.len() && c.len() == 1
            || k == a.len() + b.len() + c.len());
    }
}

} // verus!
