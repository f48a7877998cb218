//! The run journal: the merged event store, and what writes it.
//!
//! The store holds every envelope a run produced — this engine's own, and the ones it
//! relays — so there is one ordered record a view and a replay both read the same way.
//! It is append-only, and reading takes no lock a writer needs.
use vstd::prelude::*;

use crate::event::{Envelope, EventKind, Labels, LabelsModel, PipelineKind, Source, ENVELOPE_VERSION};
use crate::json;
use crate::json::{field_in, Json};
use crate::ledger::{
    ended,
    law_an_append_adds_one_whole_record,
    lossy_text,
    records_from,
    Record,
    TornTail,
};
use crate::text;
use crate::text::{blank, dec, join, text_of, texts};

pub use crate::merge::{merge_order, merged_order};

verus! {

/// The append-only writer for one run.
#[derive(Debug)]
pub struct Journal {
    /// The stream this process writes.
    pub stream: String,
    /// The next sequence number of that stream.
    pub next_seq: u64,
}

/// What a line of the store claims: the stream it belongs to, and its number in it.
#[derive(Debug, PartialEq, Eq)]
pub struct Claim {
    /// The stream, where the line names one.
    pub stream: Option<String>,
    /// The number, where the line carries one.
    pub seq: Option<u64>,
}

/// A claim as contracts speak of it.
pub open spec fn claim_of(claim: Claim) -> (Option<Seq<char>>, Option<u64>) {
    (text_of(claim.stream), claim.seq)
}

/// The claims, as contracts speak of them.
pub open spec fn claims_of(claims: Seq<Claim>) -> Seq<(Option<Seq<char>>, Option<u64>)> {
    claims.map_values(|c: Claim| claim_of(c))
}

/// The string a JSON document holds under a key: what `serde_json::from_str`,
/// `Value::get` and `Value::as_str` give, or nothing where one of them gives nothing.
pub uninterp spec fn text_at(document: Seq<char>, key: Seq<char>) -> Option<Seq<char>>;

/// The whole number a JSON document holds under a key: what `serde_json::from_str`,
/// `Value::get` and `Value::as_u64` give, or nothing where one of them gives nothing.
pub uninterp spec fn count_at(document: Seq<char>, key: Seq<char>) -> Option<u64>;

/// `serde_json::from_str` of a document, then `Value::get` of a key and `Value::as_str`.
#[verifier::external_body]
fn read_text_at(document: &str, key: &str) -> (r: Option<String>)
    ensures
        text_of(r) == text_at(document@, key@),
{
    let value: serde_json::Value = serde_json::from_str(document).ok()?;
    value.get(key)?.as_str().map(str::to_owned)
}

/// `serde_json::from_str` of a document, then `Value::get` of a key and `Value::as_u64`.
#[verifier::external_body]
fn read_count_at(document: &str, key: &str) -> (r: Option<u64>)
    ensures
        r == count_at(document@, key@),
{
    let value: serde_json::Value = serde_json::from_str(document).ok()?;
    value.get(key)?.as_u64()
}

/// The highest number a stream's claims carry.
pub open spec fn highest(
    stream: Seq<char>,
    claims: Seq<(Option<Seq<char>>, Option<u64>)>,
) -> Option<u64>
    decreases claims.len(),
{
    if claims.len() == 0 {
        None
    } else {
        let before = highest(stream, claims.drop_last());
        let (named, seq) = claims.last();
        if named != Some(stream) || seq is None {
            before
        } else if before is Some && before->0 >= seq->0 {
            before
        } else {
            seq
        }
    }
}

/// The number a stream's next record takes: above every line already claiming one —
/// among them one a schema this build cannot read wrote, because a record's
/// readability and its claim on a number are different questions. Nothing where the
/// last number there is has been claimed.
pub open spec fn next_above(
    stream: Seq<char>,
    claims: Seq<(Option<Seq<char>>, Option<u64>)>,
) -> Option<u64> {
    match highest(stream, claims) {
        None => Some(0),
        Some(max) => if max < u64::MAX {
            Some((max + 1) as u64)
        } else {
            None
        },
    }
}

/// The number a stream's next record takes.
pub fn next_seq(stream: &str, claims: &Vec<Claim>) -> (r: Option<u64>)
    ensures
        r == next_above(stream@, claims_of(claims@)),
{
    let ghost model = claims_of(claims@);
    let mut max: Option<u64> = None;
    let mut i: usize = 0;
    while i < claims.len()
        invariant
            model == claims_of(claims@),
            i <= claims@.len(),
            max == highest(stream@, model.take(i as int)),
        decreases claims@.len() - i,
    {
        proof {
            assert(model.take(i + 1).drop_last() =~= model.take(i as int));
            assert(model.take(i + 1).last() == claim_of(claims@[i as int]));
        }
        if text::is_text(&claims[i].stream, stream) {
            if let Some(seq) = claims[i].seq {
                let higher: bool = match max {
                    Some(max) => max < seq,
                    None => true,
                };
                if higher {
                    max = Some(seq);
                }
            }
        }
        i += 1;
    }
    assert(model.take(model.len() as int) =~= model);
    match max {
        None => Some(0),
        Some(max) => max.checked_add(1),
    }
}

/// What the lines of a store claim.
pub open spec fn line_claims(lines: Seq<Seq<char>>) -> Seq<(Option<Seq<char>>, Option<u64>)> {
    lines.map_values(|line: Seq<char>| (text_at(line, "stream"@), count_at(line, "seq"@)))
}

/// What relaying an envelope comes to: it is handed over as its producer wrote it, and
/// the journal that relays it is left as it was.
pub open spec fn relays(journal: Journal, given: Envelope, left: Journal, relayed: Envelope) -> bool {
    relayed == given && left == journal
}

impl Journal {
    /// Open a run's journal for appending, given the lines it holds. Nothing comes back
    /// where the last number of the stream has been claimed.
    pub fn open(stream: String, lines: &Vec<String>) -> (r: Option<Journal>)
        ensures
            match r {
                Some(journal) => journal.stream@ == stream@ && next_above(
                    stream@,
                    line_claims(texts(lines@)),
                ) == Some(journal.next_seq),
                None => next_above(stream@, line_claims(texts(lines@))) is None,
            },
    {
        let ghost claimed = line_claims(texts(lines@));
        let mut claims: Vec<Claim> = Vec::new();
        let mut i: usize = 0;
        while i < lines.len()
            invariant
                claimed == line_claims(texts(lines@)),
                i <= lines@.len(),
                claims_of(claims@) == claimed.take(i as int),
            decreases lines@.len() - i,
        {
            let claim = Claim {
                stream: read_text_at(lines[i].as_str(), "stream"),
                seq: read_count_at(lines[i].as_str(), "seq"),
            };
            let ghost was = claims_of(claims@);
            let ghost added = claim_of(claim);
            claims.push(claim);
            assert(claims_of(claims@) =~= was.push(added));
            i += 1;
            assert(claims_of(claims@) =~= claimed.take(i as int));
        }
        assert(claims_of(claims@) =~= claimed);
        match next_seq(stream.as_str(), &claims) {
            Some(next_seq) => Some(Journal { stream, next_seq }),
            None => None,
        }
    }

    /// One of this engine's own events, as the next record of its stream.
    pub fn emit(
        &mut self,
        ts: String,
        kind: PipelineKind,
        labels: Labels,
        payload: Vec<(String, Json)>,
    ) -> (r: Envelope)
        requires
            old(self).next_seq < u64::MAX,
        ensures
            final(self).stream == old(self).stream,
            final(self).next_seq == old(self).next_seq + 1,
            r.v == ENVELOPE_VERSION,
            r.ts == ts,
            r.stream@ == old(self).stream@,
            r.seq == old(self).next_seq,
            r.source == Source::Pipeline,
            r.kind.0@ == kind.word(),
            r.labels == labels,
            r.payload == payload,
            r.artifacts@.len() == 0,
    {
        let seq: u64 = self.next_seq;
        self.next_seq = seq + 1;
        Envelope {
            v: ENVELOPE_VERSION,
            ts,
            stream: self.stream.clone(),
            seq,
            source: Source::Pipeline,
            kind: EventKind(kind.as_str().to_owned()),
            labels,
            payload,
            artifacts: Vec::new(),
        }
    }

    /// An envelope another producer wrote, as it wrote it: the merge is an interleaving
    /// of streams, so it keeps its own stream, number and source, and takes no number of
    /// this one's.
    pub fn relay(&mut self, envelope: Envelope) -> (r: Envelope)
        ensures
            relays(*old(self), envelope, *final(self), r),
    {
        envelope
    }
}

/// A reopened journal takes its next number above everything its stream wrote.
pub proof fn law_a_reopened_journal_replays_no_number(
    stream: Seq<char>,
    claims: Seq<(Option<Seq<char>>, Option<u64>)>,
    i: int,
)
    requires
        0 <= i < claims.len(),
        claims[i].0 == Some(stream),
        claims[i].1 is Some,
    ensures
        next_above(stream, claims) matches Some(next) ==> claims[i].1->0 < next,
{
    lemma_highest(stream, claims, i);
}

proof fn lemma_highest(
    stream: Seq<char>,
    claims: Seq<(Option<Seq<char>>, Option<u64>)>,
    i: int,
)
    requires
        0 <= i < claims.len(),
        claims[i].0 == Some(stream),
        claims[i].1 is Some,
    ensures
        highest(stream, claims) is Some,
        highest(stream, claims)->0 >= claims[i].1->0,
    decreases claims.len(),
{
    if i < claims.len() - 1 {
        lemma_highest(stream, claims.drop_last(), i);
    }
}

/// Labels naming a run, and optionally a node within it.
pub fn labels(run: &str, node: Option<&str>) -> (r: Labels)
    ensures
        r@ == (LabelsModel {
            run_id: Some(run@),
            node: match node {
                Some(node) => Some(node@),
                None => None,
            },
            step: None,
            persona: None,
            extra: Seq::empty(),
        }),
{
    let mut out = Labels::default();
    out.run_id = Some(run.to_owned());
    if let Some(node) = node {
        out.node = Some(node.to_owned());
    }
    assert(out@.extra =~= Seq::empty());
    out
}

/// Fields with one more: a name that is there already takes the new value where it
/// stands.
pub open spec fn with_value(
    fields: Seq<(String, Json)>,
    name: String,
    value: Json,
) -> Seq<(String, Json)> {
    match json::field_at(fields, name@, 0) {
        Some(i) => fields.update(i, (fields[i].0, value)),
        None => fields.push((name, value)),
    }
}

/// The payload some fields build, in the order they are given.
pub open spec fn payload_fields(fields: Seq<(String, Json)>) -> Seq<(String, Json)>
    decreases fields.len(),
{
    if fields.len() == 0 {
        Seq::empty()
    } else {
        with_value(
            payload_fields(fields.drop_last()),
            fields.last().0,
            fields.last().1,
        )
    }
}

fn position_of(fields: &Vec<(String, Json)>, name: &str) -> (r: Option<usize>)
    ensures
        match r {
            Some(i) => json::field_at(fields@, name@, 0) == Some(i as int) && i < fields@.len(),
            None => json::field_at(fields@, name@, 0) is None,
        },
{
    let mut i: usize = 0;
    while i < fields.len()
        invariant
            i <= fields@.len(),
            json::field_at(fields@, name@, 0) == json::field_at(fields@, name@, i as int),
        decreases fields@.len() - i,
    {
        if text::same(fields[i].0.as_str(), name) {
            return Some(i);
        }
        i += 1;
    }
    None
}

/// A payload built from names and values, in the order they are given.
pub fn payload(fields: Vec<(String, Json)>) -> (r: Vec<(String, Json)>)
    ensures
        r@ == payload_fields(fields@),
{
    let ghost all = fields@;
    let mut out: Vec<(String, Json)> = Vec::new();
    assert(payload_fields(all.take(0)) =~= Seq::empty());
    for field in it: fields.into_iter()
        invariant
            it.seq() == all,
            out@ == payload_fields(all.take(it.index() as int)),
    {
        let ghost i = it.index() as int;
        proof {
            assert(all.take(i + 1).drop_last() =~= all.take(i));
            assert(all.take(i + 1).last() == all[i]);
        }
        let (name, value) = field;
        match position_of(&out, name.as_str()) {
            Some(at) => {
                let ghost before = out@;
                let (kept, _old) = out.remove(at);
                out.insert(at, (kept, value));
                assert(out@ =~= before.update(at as int, (before[at as int].0, value)));
            },
            None => {
                out.push((name, value));
            },
        }
    }
    assert(all.take(all.len() as int) =~= all);
    out
}

/// What a parser made of a line.
#[derive(Debug, PartialEq, Eq)]
pub enum Parsed {
    /// A whole envelope.
    Whole(Envelope),
    /// It stops before an envelope is complete.
    Incomplete,
    /// It is not an envelope.
    Other,
}

/// One line of the journal, with what a parser made of it: of the whole line, and — for
/// each position a record can start at — of what follows.
#[derive(Debug, PartialEq, Eq)]
pub struct Line {
    /// The line.
    pub record: Record,
    /// What a parser made of the whole of it.
    pub whole: Parsed,
    /// What a parser made of what follows each of its starts, in order.
    pub tails: Vec<Option<Envelope>>,
}

/// What every record of the store opens with: its first field.
pub const RECORD_OPENING: [u8; 5] = [123, 34, 118, 34, 58];

/// A record can start at a position of some bytes.
pub open spec fn opens_at(bytes: Seq<u8>, at: int) -> bool {
    0 <= at && at + 5 <= bytes.len() && bytes.subrange(at, at + 5) == RECORD_OPENING@
}

/// The positions after the first at which a record can start.
pub open spec fn starts_from(bytes: Seq<u8>, from: int) -> Seq<int>
    decreases bytes.len() - from,
{
    if from < 0 || from >= bytes.len() {
        Seq::empty()
    } else if opens_at(bytes, from) {
        seq![from] + starts_from(bytes, from + 1)
    } else {
        starts_from(bytes, from + 1)
    }
}

/// The positions in a line, after its first, at which a whole record can start.
///
/// Every envelope is written from the same shape, so the needle is the whole of its
/// opening: trying a parse at every brace would try one per field of a payload.
pub open spec fn starts(line: Seq<char>) -> Seq<int> {
    starts_from(vstd::utf8::encode_utf8(line), 1)
}

/// The positions in a line, after its first, at which a whole record can start.
pub fn record_starts(line: &str) -> (r: Vec<usize>)
    ensures
        r@.map_values(|i: usize| i as int) == starts(line@),
{
    let bytes = line.as_bytes();
    let opening = RECORD_OPENING;
    let n: usize = bytes.len();
    let ghost whole = vstd::utf8::encode_utf8(line@);
    let mut out: Vec<usize> = Vec::new();
    let mut i: usize = 1;
    assert(out@.map_values(|i: usize| i as int) + starts_from(whole, 1) =~= starts(line@));
    while i < n
        invariant
            bytes@ == whole,
            n == bytes@.len(),
            opening@ == RECORD_OPENING@,
            opening@.len() == 5,
            out@.map_values(|i: usize| i as int) + starts_from(whole, i as int) == starts(line@),
        decreases n - i,
    {
        let ghost was = out@.map_values(|i: usize| i as int);
        let ghost rest = starts_from(whole, i as int);
        let opens: bool = n - i >= 5 && bytes[i] == opening[0] && bytes[i + 1] == opening[1]
            && bytes[i + 2] == opening[2] && bytes[i + 3] == opening[3] && bytes[i + 4]
            == opening[4];
        proof {
            if opens {
                assert(whole.subrange(i as int, i + 5) =~= RECORD_OPENING@);
            } else if opens_at(whole, i as int) {
                let part = whole.subrange(i as int, i + 5);
                assert(part[0] == opening@[0] && part[1] == opening@[1] && part[2] == opening@[2]
                    && part[3] == opening@[3] && part[4] == opening@[4]);
            }
            assert(opens == opens_at(whole, i as int));
        }
        if opens {
            out.push(i);
            assert(out@.map_values(|i: usize| i as int) =~= was.push(i as int));
        }
        i += 1;
        proof {
            assert(out@.map_values(|i: usize| i as int) + starts_from(whole, i as int) =~= was
                + rest);
        }
    }
    assert(starts_from(whole, i as int) =~= Seq::empty());
    assert(out@.map_values(|i: usize| i as int) =~= starts(line@));
    out
}

/// The first of some tails that is a whole record.
pub open spec fn first_tail(tails: Seq<Option<Envelope>>, from: int) -> Option<int>
    decreases tails.len() - from,
{
    if from < 0 || from >= tails.len() {
        None
    } else if tails[from] is Some {
        Some(from)
    } else {
        first_tail(tails, from + 1)
    }
}

/// What one line of the journal turned out to be.
pub ghost enum Found {
    /// A whole record this build reads.
    Whole(Envelope),
    /// Nothing at all.
    Blank,
    /// A fragment of this many bytes, and a whole record appended after it.
    Glued(int, Envelope),
    /// A record whose writer did not finish it.
    Truncated,
    /// A whole line this build cannot read.
    Unparseable,
}

/// Which of the five a line is.
///
/// An unterminated line is a fragment whatever its parse says: a record is finished when
/// its newline lands and not before.
pub open spec fn found(line: Line) -> Found {
    if blank(line.record.text@) {
        Found::Blank
    } else if !line.record.terminated {
        Found::Truncated
    } else {
        match line.whole {
            Parsed::Whole(envelope) => Found::Whole(envelope),
            other => {
                let at = first_tail(line.tails@, 0);
                if at is Some && at->0 < starts(line.record.text@).len() {
                    Found::Glued(starts(line.record.text@)[at->0], line.tails@[at->0]->0)
                } else if other is Incomplete {
                    Found::Truncated
                } else {
                    Found::Unparseable
                }
            },
        }
    }
}

/// What one line of the journal turned out to be.
#[derive(Debug, PartialEq, Eq)]
pub enum Reading {
    /// A whole record this build reads.
    Whole(Envelope),
    /// Nothing at all: a blank line.
    Blank,
    /// A fragment, and then a whole record appended after it by another process.
    Glued {
        /// How many bytes of the line are the fragment.
        lost: u64,
        /// The whole record after it.
        envelope: Envelope,
    },
    /// A record whose writer did not finish it.
    Truncated,
    /// A whole line this build cannot read.
    Unparseable,
}

/// A reading as contracts speak of it.
pub open spec fn finding(reading: Reading) -> Found {
    match reading {
        Reading::Whole(envelope) => Found::Whole(envelope),
        Reading::Blank => Found::Blank,
        Reading::Glued { lost, envelope } => Found::Glued(lost as int, envelope),
        Reading::Truncated => Found::Truncated,
        Reading::Unparseable => Found::Unparseable,
    }
}

fn take_tail(tails: Vec<Option<Envelope>>) -> (r: Option<(usize, Envelope)>)
    ensures
        match r {
            Some((at, envelope)) => first_tail(tails@, 0) == Some(at as int) && at < tails@.len()
                && tails@[at as int] == Some(envelope),
            None => first_tail(tails@, 0) is None,
        },
{
    let ghost all = tails@;
    let n: usize = tails.len();
    let mut at: usize = 0;
    for tail in it: tails.into_iter()
        invariant
            it.seq() == all,
            all == tails@,
            n == all.len(),
            at == it.index(),
            first_tail(all, 0) == first_tail(all, at as int),
    {
        assert(tail == all[at as int]);
        if let Some(envelope) = tail {
            return Some((at, envelope));
        }
        at += 1;
    }
    None
}

/// Which of the five a line is.
pub fn reading(line: Line) -> (r: Reading)
    ensures
        finding(r) == found(line),
{
    let Line { record, whole, tails } = line;
    if text::is_blank(record.text.as_str()) {
        return Reading::Blank;
    }
    if !record.terminated {
        return Reading::Truncated;
    }
    let incomplete: bool = match whole {
        Parsed::Whole(envelope) => {
            return Reading::Whole(envelope);
        },
        Parsed::Incomplete => true,
        Parsed::Other => false,
    };
    let starts = record_starts(record.text.as_str());
    if let Some((at, envelope)) = take_tail(tails) {
        if at < starts.len() {
            assert(starts@.map_values(|i: usize| i as int)[at as int] == starts@[at as int] as int);
            return Reading::Glued { lost: starts[at] as u64, envelope };
        }
    }
    if incomplete {
        Reading::Truncated
    } else {
        Reading::Unparseable
    }
}

/// The envelope a line hands back: a fragment glued in front of a whole record does not
/// lose the record.
pub open spec fn envelope_of(found: Found) -> Option<Envelope> {
    match found {
        Found::Whole(envelope) => Some(envelope),
        Found::Glued(_, envelope) => Some(envelope),
        _ => None,
    }
}

/// The envelopes some lines hold, in the order they were appended.
pub open spec fn envelopes(lines: Seq<Line>) -> Seq<Envelope>
    decreases lines.len(),
{
    if lines.len() == 0 {
        Seq::empty()
    } else {
        match envelope_of(found(lines.last())) {
            Some(envelope) => envelopes(lines.drop_last()).push(envelope),
            None => envelopes(lines.drop_last()),
        }
    }
}

/// Every envelope in a run's journal, in the order it was appended. A line this build
/// cannot parse is skipped rather than ending the read.
pub fn read(lines: Vec<Line>) -> (r: Vec<Envelope>)
    ensures
        r@ == envelopes(lines@),
{
    let ghost all = lines@;
    let mut out: Vec<Envelope> = Vec::new();
    assert(envelopes(all.take(0)) =~= Seq::empty());
    for line in it: lines.into_iter()
        invariant
            it.seq() == all,
            out@ == envelopes(all.take(it.index() as int)),
    {
        let ghost i = it.index() as int;
        proof {
            assert(all.take(i + 1).drop_last() =~= all.take(i));
            assert(all.take(i + 1).last() == all[i]);
        }
        match reading(line) {
            Reading::Whole(envelope) => {
                out.push(envelope);
            },
            Reading::Glued { lost, envelope } => {
                out.push(envelope);
            },
            Reading::Blank => {},
            Reading::Truncated => {},
            Reading::Unparseable => {},
        }
    }
    assert(all.take(all.len() as int) =~= all);
    out
}

/// What a parser makes of a line: of the whole of it, and of what follows each of the
/// positions a record can start at.
pub type Parser = spec_fn(Seq<char>) -> (Parsed, Seq<Option<Envelope>>);

/// The lines of a store's bytes, each with what a parser made of it.
pub open spec fn parsed_by(lines: Seq<Line>, store: Seq<u8>, parse: Parser) -> bool {
    let records = records_from(store, 0, 1);
    &&& lines.len() == records.len()
    &&& forall|i: int|
        0 <= i < lines.len() ==> {
            &&& (#[trigger] lines[i]).record@ == records[i]
            &&& lines[i].whole == parse(records[i].text).0
            &&& lines[i].tails@ == parse(records[i].text).1
        }
}

/// A line is an envelope's own: it is one line, it is not blank, and a parser gives
/// that envelope back for it.
pub open spec fn carries(line: Seq<u8>, envelope: Envelope, parse: Parser) -> bool {
    &&& forall|i: int| 0 <= i < line.len() ==> #[trigger] line[i] != 10
    &&& !blank(lossy_text(line))
    &&& parse(lossy_text(line)).0 == Parsed::Whole(envelope)
}

proof fn lemma_same_envelopes(one: Seq<Line>, two: Seq<Line>)
    requires
        one.len() == two.len(),
        forall|i: int| 0 <= i < one.len() ==> found(#[trigger] one[i]) == found(two[i]),
    ensures
        envelopes(one) == envelopes(two),
    decreases one.len(),
{
    if one.len() > 0 {
        let (p, q) = (one.drop_last(), two.drop_last());
        assert forall|i: int| 0 <= i < p.len() implies found(#[trigger] p[i]) == found(q[i]) by {
            assert(p[i] == one[i]);
        }
        lemma_same_envelopes(p, q);
        assert(found(one[one.len() - 1]) == found(two[one.len() - 1]));
    }
}

/// What is appended is what a later read gives back. A store whose every line ended,
/// with the line of an envelope appended to it, reads as it read before and that
/// envelope after: with its own stream, number, source and kind, and with every earlier
/// envelope still there in order.
///
/// It holds of every parser that gives an envelope back for the line it was written as.
pub proof fn law_an_appended_envelope_is_read_back(
    store: Seq<u8>,
    line: Seq<u8>,
    envelope: Envelope,
    parse: Parser,
    before: Seq<Line>,
    after: Seq<Line>,
)
    requires
        ended(store),
        carries(line, envelope, parse),
        parsed_by(before, store, parse),
        parsed_by(after, store + line.push(10), parse),
    ensures
        envelopes(after) == envelopes(before).push(envelope),
{
    law_an_append_adds_one_whole_record(store, line);
    let was = records_from(store, 0, 1);
    let now = records_from(store + line.push(10), 0, 1);
    let rest = after.drop_last();
    assert forall|i: int| 0 <= i < rest.len() implies found(#[trigger] rest[i]) == found(
        before[i],
    ) by {
        assert(rest[i] == after[i]);
        assert(now[i] == was[i]);
        assert(after[i].record@ == before[i].record@);
    }
    lemma_same_envelopes(rest, before);
    let last = after[after.len() - 1];
    assert(last.record@ == now[was.len() as int]);
    assert(found(last) == Found::Whole(envelope));
}

/// Relaying renumbers neither stream: a journal that relays an envelope hands over that
/// envelope with its own stream, number, source and kind, a later read gives it back
/// after everything the store held, and the next event of the journal's own takes the
/// number it would have taken.
pub proof fn law_a_relayed_envelope_keeps_its_own_stream(
    journal: Journal,
    left: Journal,
    given: Envelope,
    relayed: Envelope,
    store: Seq<u8>,
    line: Seq<u8>,
    parse: Parser,
    before: Seq<Line>,
    after: Seq<Line>,
)
    requires
        relays(journal, given, left, relayed),
        ended(store),
        carries(line, relayed, parse),
        parsed_by(before, store, parse),
        parsed_by(after, store + line.push(10), parse),
    ensures
        envelopes(after).drop_last() == envelopes(before),
        envelopes(after).last().stream == given.stream,
        envelopes(after).last().seq == given.seq,
        envelopes(after).last().source == given.source,
        envelopes(after).last().kind == given.kind,
        left.next_seq == journal.next_seq,
        left.stream == journal.stream,
{
    law_an_appended_envelope_is_read_back(store, line, relayed, parse, before, after);
    assert(envelopes(after).drop_last() =~= envelopes(before));
}

/// A reopened journal passes over what it relayed: an envelope of another stream claims
/// no number of this one's.
pub proof fn law_another_streams_number_is_not_taken(
    stream: Seq<char>,
    claims: Seq<(Option<Seq<char>>, Option<u64>)>,
    relayed: (Option<Seq<char>>, Option<u64>),
)
    requires
        relayed.0 != Some(stream),
    ensures
        next_above(stream, claims.push(relayed)) == next_above(stream, claims),
{
    assert(claims.push(relayed).drop_last() =~= claims);
}

/// A line that is not a whole record or a blank one.
pub open spec fn is_lost(found: Found) -> bool {
    found is Glued || found is Truncated || found is Unparseable
}

/// What a line turned out to be, without its envelope.
enum Class {
    Held,
    Glued(u64),
    Truncated,
    Unparseable,
}

fn classify(line: &Line) -> (r: Class)
    ensures
        match found(*line) {
            Found::Whole(_) => r is Held,
            Found::Blank => r is Held,
            Found::Glued(lost, _) => r matches Class::Glued(bytes) && bytes == lost,
            Found::Truncated => r is Truncated,
            Found::Unparseable => r is Unparseable,
        },
{
    if text::is_blank(line.record.text.as_str()) {
        return Class::Held;
    }
    if !line.record.terminated {
        return Class::Truncated;
    }
    let incomplete: bool = match &line.whole {
        Parsed::Whole(_) => {
            return Class::Held;
        },
        Parsed::Incomplete => true,
        Parsed::Other => false,
    };
    let starts = record_starts(line.record.text.as_str());
    let mut at: usize = 0;
    while at < line.tails.len() && line.tails[at].is_none()
        invariant
            at <= line.tails@.len(),
            first_tail(line.tails@, 0) == first_tail(line.tails@, at as int),
        decreases line.tails@.len() - at,
    {
        at += 1;
    }
    if at < line.tails.len() && at < starts.len() {
        assert(starts@.map_values(|i: usize| i as int)[at as int] == starts@[at as int] as int);
        return Class::Glued(starts[at] as u64);
    }
    if incomplete {
        Class::Truncated
    } else {
        Class::Unparseable
    }
}

/// Whether the journal holds a line this build could not read: an unreadable line might
/// have been an authoritative change, so strict replay reports rather than guesses.
pub fn has_unreadable_lines(lines: &Vec<Line>) -> (r: bool)
    ensures
        r == exists|i: int| 0 <= i < lines@.len() && is_lost(found(#[trigger] lines@[i])),
{
    let mut i: usize = 0;
    while i < lines.len()
        invariant
            i <= lines@.len(),
            forall|j: int| 0 <= j < i ==> !is_lost(found(#[trigger] lines@[j])),
        decreases lines@.len() - i,
    {
        match classify(&lines[i]) {
            Class::Held => {},
            _ => {
                assert(is_lost(found(lines@[i as int])));
                return true;
            },
        }
        i += 1;
    }
    false
}

/// One record a run's store does not hold whole, and where it is.
#[derive(Debug, Clone, Copy, PartialEq, Eq, Structural)]
pub struct Loss {
    /// The 1-based line it is on.
    pub line: usize,
    /// Where in the file that line begins.
    pub offset: u64,
    /// How many bytes of it are not a record this build can read.
    pub bytes: u64,
}

/// What a read of one run's journal found that is not a whole record.
///
/// The three are distinct, because they call for different things: a truncated record is
/// a loss this run suffered; an unparseable one is very often a record from a newer
/// build; a healed one is a fragment an append has already cut away.
#[derive(Debug, PartialEq, Eq)]
pub struct Integrity {
    /// Records whose writer did not finish them.
    pub truncated: Vec<Loss>,
    /// Whole lines this build cannot read.
    pub unparseable: Vec<Loss>,
    /// Fragments an append healed out of the file.
    pub healed: Vec<TornTail>,
}

/// The records of a store that are cut short, and how many bytes of each are lost.
pub open spec fn truncations(lines: Seq<Line>) -> Seq<Loss>
    decreases lines.len(),
{
    if lines.len() == 0 {
        Seq::empty()
    } else {
        let before = truncations(lines.drop_last());
        let record = lines.last().record;
        match found(lines.last()) {
            Found::Glued(lost, _) => before.push(
                Loss { line: record.line, offset: record.offset, bytes: lost as u64 },
            ),
            Found::Truncated => before.push(
                Loss { line: record.line, offset: record.offset, bytes: record.bytes },
            ),
            _ => before,
        }
    }
}

/// The lines of a store this build cannot read.
pub open spec fn unparseables(lines: Seq<Line>) -> Seq<Loss>
    decreases lines.len(),
{
    if lines.len() == 0 {
        Seq::empty()
    } else {
        let before = unparseables(lines.drop_last());
        let record = lines.last().record;
        match found(lines.last()) {
            Found::Unparseable => before.push(
                Loss { line: record.line, offset: record.offset, bytes: record.bytes },
            ),
            _ => before,
        }
    }
}

/// What one run's journal holds that is not a whole record, beside what an append has
/// healed out of it.
pub fn integrity(lines: &Vec<Line>, healed: Vec<TornTail>) -> (r: Integrity)
    ensures
        r.truncated@ == truncations(lines@),
        r.unparseable@ == unparseables(lines@),
        r.healed == healed,
{
    let mut truncated: Vec<Loss> = Vec::new();
    let mut unparseable: Vec<Loss> = Vec::new();
    let mut i: usize = 0;
    assert(truncations(lines@.take(0)) =~= Seq::empty());
    assert(unparseables(lines@.take(0)) =~= Seq::empty());
    while i < lines.len()
        invariant
            i <= lines@.len(),
            truncated@ == truncations(lines@.take(i as int)),
            unparseable@ == unparseables(lines@.take(i as int)),
        decreases lines@.len() - i,
    {
        proof {
            assert(lines@.take(i + 1).drop_last() =~= lines@.take(i as int));
            assert(lines@.take(i + 1).last() == lines@[i as int]);
        }
        let line: usize = lines[i].record.line;
        let offset: u64 = lines[i].record.offset;
        let bytes: u64 = lines[i].record.bytes;
        match classify(&lines[i]) {
            Class::Held => {},
            Class::Glued(lost) => {
                truncated.push(Loss { line, offset, bytes: lost });
            },
            Class::Truncated => {
                truncated.push(Loss { line, offset, bytes });
            },
            Class::Unparseable => {
                unparseable.push(Loss { line, offset, bytes });
            },
        }
        i += 1;
    }
    assert(lines@.take(lines@.len() as int) =~= lines@);
    Integrity { truncated, unparseable, healed }
}

/// Where one loss is.
pub open spec fn loss_text(loss: Loss) -> Seq<char> {
    "line "@ + dec(loss.line as nat) + " at byte "@ + dec(loss.offset as nat) + " ("@ + dec(
        loss.bytes as nat,
    ) + " bytes)"@
}

/// How a count of losses and where each is read.
pub open spec fn losses_text(losses: Seq<Loss>, one: Seq<char>, many: Seq<char>) -> Seq<char> {
    dec(losses.len()) + " "@ + (if losses.len() == 1 {
        one
    } else {
        many
    }) + ": "@ + join(losses.map_values(|l: Loss| loss_text(l)), ", "@)
}

/// Where one fragment was.
pub open spec fn torn_text(torn: TornTail) -> Seq<char> {
    "byte "@ + dec(torn.offset as nat) + " ("@ + dec(torn.bytes as nat) + " bytes)"@
}

/// How a count of healed fragments and where each was read.
pub open spec fn healed_text(healed: Seq<TornTail>) -> Seq<char> {
    dec(healed.len()) + " fragment"@ + (if healed.len() == 1 {
        ""@
    } else {
        "s"@
    }) + " discarded at append: "@ + join(healed.map_values(|t: TornTail| torn_text(t)), ", "@)
}

/// What a view says a store lost, part by part.
pub open spec fn said_parts(
    truncated: Seq<Loss>,
    unparseable: Seq<Loss>,
    healed: Seq<TornTail>,
) -> Seq<Seq<char>> {
    let a = if truncated.len() > 0 {
        seq![losses_text(truncated, "truncated record"@, "truncated records"@)]
    } else {
        Seq::empty()
    };
    let b = if unparseable.len() > 0 {
        a.push(
            losses_text(
                unparseable,
                "line this build cannot read"@,
                "lines this build cannot read"@,
            ),
        )
    } else {
        a
    };
    if healed.len() > 0 {
        b.push(healed_text(healed))
    } else {
        b
    }
}

fn say_losses(losses: &Vec<Loss>, one: &str, many: &str) -> (r: String)
    ensures
        r@ == losses_text(losses@, one@, many@),
{
    let ghost written = losses@.map_values(|l: Loss| loss_text(l));
    let mut placed: Vec<String> = Vec::new();
    let mut i: usize = 0;
    while i < losses.len()
        invariant
            written == losses@.map_values(|l: Loss| loss_text(l)),
            i <= losses@.len(),
            texts(placed@) == written.take(i as int),
        decreases losses@.len() - i,
    {
        let mut at: String = String::from_str("line ");
        text::push_dec(&mut at, losses[i].line as u64);
        at.append(" at byte ");
        text::push_dec(&mut at, losses[i].offset);
        at.append(" (");
        text::push_dec(&mut at, losses[i].bytes);
        at.append(" bytes)");
        let ghost was = texts(placed@);
        let ghost added = at@;
        placed.push(at);
        assert(texts(placed@) =~= was.push(added));
        i += 1;
        assert(texts(placed@) =~= written.take(i as int));
    }
    assert(texts(placed@) =~= written);
    let list = text::joined(&placed, ", ");
    let mut out: String = text::dec_text(losses.len() as u64);
    out.append(" ");
    out.append(if losses.len() == 1 {
        one
    } else {
        many
    });
    out.append(": ");
    out.append(list.as_str());
    out
}

fn say_healed(healed: &Vec<TornTail>) -> (r: String)
    ensures
        r@ == healed_text(healed@),
{
    let ghost written = healed@.map_values(|t: TornTail| torn_text(t));
    let mut placed: Vec<String> = Vec::new();
    let mut i: usize = 0;
    while i < healed.len()
        invariant
            written == healed@.map_values(|t: TornTail| torn_text(t)),
            i <= healed@.len(),
            texts(placed@) == written.take(i as int),
        decreases healed@.len() - i,
    {
        let mut at: String = String::from_str("byte ");
        text::push_dec(&mut at, healed[i].offset);
        at.append(" (");
        text::push_dec(&mut at, healed[i].bytes);
        at.append(" bytes)");
        let ghost was = texts(placed@);
        let ghost added = at@;
        placed.push(at);
        assert(texts(placed@) =~= was.push(added));
        i += 1;
        assert(texts(placed@) =~= written.take(i as int));
    }
    assert(texts(placed@) =~= written);
    let list = text::joined(&placed, ", ");
    let mut out: String = text::dec_text(healed.len() as u64);
    out.append(" fragment");
    out.append(if healed.len() == 1 {
        ""
    } else {
        "s"
    });
    out.append(" discarded at append: ");
    out.append(list.as_str());
    out
}

impl Integrity {
    /// Whether the store holds every record it was ever written, whole.
    pub fn is_whole(&self) -> (r: bool)
        ensures
            r == (self.truncated@.len() == 0 && self.unparseable@.len() == 0 && self.healed@.len()
                == 0),
    {
        self.truncated.len() == 0 && self.unparseable.len() == 0 && self.healed.len() == 0
    }

    /// How a view says what the store lost, counted and placed, or nothing when it lost
    /// nothing.
    pub fn phrase(&self) -> (r: String)
        ensures
            r@ == join(said_parts(self.truncated@, self.unparseable@, self.healed@), "; "@),
    {
        let mut said: Vec<String> = Vec::new();
        let ghost a = if self.truncated@.len() > 0 {
            seq![losses_text(self.truncated@, "truncated record"@, "truncated records"@)]
        } else {
            Seq::empty()
        };
        if self.truncated.len() > 0 {
            said.push(say_losses(&self.truncated, "truncated record", "truncated records"));
        }
        assert(texts(said@) =~= a);
        if self.unparseable.len() > 0 {
            let one = say_losses(
                &self.unparseable,
                "line this build cannot read",
                "lines this build cannot read",
            );
            let ghost added = one@;
            said.push(one);
            assert(texts(said@) =~= a.push(added));
        }
        let ghost b = texts(said@);
        if self.healed.len() > 0 {
            let one = say_healed(&self.healed);
            let ghost added = one@;
            said.push(one);
            assert(texts(said@) =~= b.push(added));
        }
        text::joined(&said, "; ")
    }
}

/// Every line is counted once: as a record handed back, as a loss, or as a blank line;
/// and a line with both a fragment and a record is counted as each.
pub proof fn law_every_line_is_accounted_for(lines: Seq<Line>)
    ensures
        envelopes(lines).len() + truncations(lines).len() + unparseables(lines).len()
            == lines.len() + glued(lines) - blanks(lines),
    decreases lines.len(),
{
    if lines.len() > 0 {
        law_every_line_is_accounted_for(lines.drop_last());
    }
}

/// How many lines hold a fragment and then a whole record.
pub open spec fn glued(lines: Seq<Line>) -> int
    decreases lines.len(),
{
    if lines.len() == 0 {
        0
    } else {
        glued(lines.drop_last()) + (if found(lines.last()) is Glued {
            1int
        } else {
            0
        })
    }
}

/// How many lines are blank.
pub open spec fn blanks(lines: Seq<Line>) -> int
    decreases lines.len(),
{
    if lines.len() == 0 {
        0
    } else {
        blanks(lines.drop_last()) + (if found(lines.last()) is Blank {
            1int
        } else {
            0
        })
    }
}

/// A store that says it is whole holds no line a strict replay would report.
pub proof fn law_a_whole_store_replays_strictly(lines: Seq<Line>, i: int)
    requires
        truncations(lines).len() == 0,
        unparseables(lines).len() == 0,
        0 <= i < lines.len(),
    ensures
        !is_lost(found(lines[i])),
    decreases lines.len(),
{
    if i < lines.len() - 1 {
        law_a_whole_store_replays_strictly(lines.drop_last(), i);
    }
}

/// The payload field naming what a stop's teardown established.
pub const STOP_TEARDOWN: &'static str = "teardown";

/// What a stop's record says its teardown established about the run's processes.
#[derive(Debug, Clone, Copy, PartialEq, Eq, Structural)]
pub enum StopTeardown {
    /// The run's process tree was listed in full and every process in it was signalled.
    Signalled,
    /// This host gave no listing the tree could be read from, so nothing was signalled.
    NotAttempted,
    /// The tree was listed and part of it was signalled.
    PartlySignalled,
    /// The run's driver is on another host.
    Elsewhere,
}

impl StopTeardown {
    /// The word a teardown is written as.
    pub open spec fn word(self) -> Seq<char> {
        match self {
            StopTeardown::Signalled => "signalled"@,
            StopTeardown::NotAttempted => "not-attempted"@,
            StopTeardown::PartlySignalled => "partly-signalled"@,
            StopTeardown::Elsewhere => "elsewhere"@,
        }
    }

    /// The teardown a word stands for, where this build knows it.
    pub open spec fn read(word: Seq<char>) -> Option<StopTeardown> {
        if word == "signalled"@ {
            Some(StopTeardown::Signalled)
        } else if word == "not-attempted"@ {
            Some(StopTeardown::NotAttempted)
        } else if word == "partly-signalled"@ {
            Some(StopTeardown::PartlySignalled)
        } else if word == "elsewhere"@ {
            Some(StopTeardown::Elsewhere)
        } else {
            None
        }
    }

    /// What a payload's value says, where this build knows it: the word itself, or the
    /// word as the one name of a mapping that holds nothing.
    pub open spec fn said(value: Json) -> Option<StopTeardown> {
        match value {
            Json::Text(word) => StopTeardown::read(word@),
            Json::Object(fields) => if fields@.len() == 1 && fields@[0].1 is Null {
                StopTeardown::read(fields@[0].0@)
            } else {
                None
            },
            _ => None,
        }
    }

    fn parse(word: &str) -> (r: Option<StopTeardown>)
        ensures
            r == StopTeardown::read(word@),
    {
        if text::same(word, "signalled") {
            Some(StopTeardown::Signalled)
        } else if text::same(word, "not-attempted") {
            Some(StopTeardown::NotAttempted)
        } else if text::same(word, "partly-signalled") {
            Some(StopTeardown::PartlySignalled)
        } else if text::same(word, "elsewhere") {
            Some(StopTeardown::Elsewhere)
        } else {
            None
        }
    }

    /// The word a teardown is written as.
    pub fn as_str(self) -> (r: &'static str)
        ensures
            r@ == self.word(),
    {
        match self {
            StopTeardown::Signalled => "signalled",
            StopTeardown::NotAttempted => "not-attempted",
            StopTeardown::PartlySignalled => "partly-signalled",
            StopTeardown::Elsewhere => "elsewhere",
        }
    }

    /// What a stop's payload says, read defensively.
    ///
    /// A record with no such field was written before it existed, and those stops
    /// signalled a tree they had read. A record that has the field and says something
    /// this build does not know is read as the most cautious outcome this build has.
    pub fn of(payload: &Vec<(String, Json)>) -> (r: Self)
        ensures
            r == (match field_in(payload@, STOP_TEARDOWN@) {
                None => StopTeardown::Signalled,
                Some(value) => match StopTeardown::said(value) {
                    Some(known) => known,
                    None => StopTeardown::NotAttempted,
                },
            }),
    {
        let known: Option<StopTeardown> = match json::field(payload, STOP_TEARDOWN) {
            None => {
                return StopTeardown::Signalled;
            },
            Some(Json::Text(word)) => StopTeardown::parse(word.as_str()),
            Some(Json::Object(fields)) => {
                let empty: bool = if fields.len() == 1 {
                    match &fields[0].1 {
                        Json::Null => true,
                        _ => false,
                    }
                } else {
                    false
                };
                if empty {
                    StopTeardown::parse(fields[0].0.as_str())
                } else {
                    None
                }
            },
            Some(_) => None,
        };
        match known {
            Some(known) => known,
            None => StopTeardown::NotAttempted,
        }
    }
}

/// What a stop writes, a reader reads back.
pub proof fn law_a_teardown_round_trips(teardown: StopTeardown)
    ensures
        StopTeardown::read(teardown.word()) == Some(teardown),
{
    reveal_strlit("signalled");
    reveal_strlit("not-attempted");
    reveal_strlit("partly-signalled");
    reveal_strlit("elsewhere");
    assert("signalled"@[0] == 's' && "elsewhere"@[0] == 'e');
    assert("not-attempted"@.len() == 13 && "partly-signalled"@.len() == 16);
    assert("signalled"@.len() == 9 && "elsewhere"@.len() == 9);
}

/// The payload field saying whether a node's change reached its base branch.
pub const SETTLED_LANDING: &'static str = "landing";

/// The fields of a settlement's payload, by name and value.
pub open spec fn settled_pairs(
    status: Seq<char>,
    outcome: Option<Seq<char>>,
    detail: Option<Seq<char>>,
) -> Seq<(Seq<char>, Seq<char>)> {
    let a = seq![("status"@, status)];
    let b = match outcome {
        Some(outcome) => a.push(("outcome"@, outcome)),
        None => a,
    };
    match detail {
        Some(detail) => b.push(("detail"@, detail)),
        None => b,
    }
}

/// An optional text, as contracts speak of it.
pub open spec fn str_of(s: Option<&str>) -> Option<Seq<char>> {
    match s {
        Some(s) => Some(s@),
        None => None,
    }
}

/// The payload of a settlement, as the projection folds it: a field it was not given is
/// left out.
pub fn settled_payload(status: &str, outcome: Option<&str>, detail: Option<&str>) -> (r: Vec<
    (String, Json),
>)
    ensures
        json::all_texts(r@, settled_pairs(status@, str_of(outcome), str_of(detail))),
{
    let mut fields: Vec<(String, Json)> = Vec::new();
    let ghost none = Seq::<(Seq<char>, Seq<char>)>::empty();
    assert(json::all_texts(fields@, none));
    json::push_text(&mut fields, "status", status);
    assert(none.push(("status"@, status@)) =~= seq![("status"@, status@)]);
    if let Some(outcome) = outcome {
        json::push_text(&mut fields, "outcome", outcome);
    }
    if let Some(detail) = detail {
        json::push_text(&mut fields, "detail", detail);
    }
    fields
}

proof fn lemma_highest_is_claimed(stream: Seq<char>, claims: Seq<(Option<Seq<char>>, Option<u64>)>)
    ensures
        highest(stream, claims) matches Some(max) ==> exists|i: int|
            0 <= i < claims.len() && #[trigger] claims[i] == (Some(stream), Some(max)),
        highest(stream, claims) is None ==> forall|i: int|
            0 <= i < claims.len() ==> (#[trigger] claims[i]).0 != Some(stream) || claims[i].1 is None,
    decreases claims.len(),
{
    if claims.len() > 0 {
        let before = claims.drop_last();
        lemma_highest_is_claimed(stream, before);
        let (named, seq) = claims.last();
        assert(claims[claims.len() - 1] == (named, seq));
        if highest(stream, claims) is Some && highest(stream, claims) == highest(stream, before) {
            let max = highest(stream, claims)->0;
            let i = choose|i: int|
                0 <= i < before.len() && #[trigger] before[i] == (Some(stream), Some(max));
            assert(claims[i] == (Some(stream), Some(max)));
        }
        if highest(stream, claims) is None {
            assert forall|i: int| 0 <= i < claims.len() implies (#[trigger] claims[i]).0 != Some(
                stream,
            ) || claims[i].1 is None by {
                if i < before.len() {
                    assert(before[i] == claims[i]);
                }
            }
        }
    }
}

/// A stream's numbers run on without a gap: its next record takes zero where nothing
/// claims a number of it, and otherwise the one behind the highest that is claimed; only
/// where the last number there is has been claimed does it take none.
pub proof fn law_a_streams_numbers_run_on(
    stream: Seq<char>,
    claims: Seq<(Option<Seq<char>>, Option<u64>)>,
    i: int,
)
    requires
        0 <= i < claims.len(),
        claims[i].0 == Some(stream),
        claims[i].1 is Some,
        forall|j: int|
            0 <= j < claims.len() && (#[trigger] claims[j]).0 == Some(stream) && claims[j].1
                is Some ==> claims[j].1->0 <= claims[i].1->0,
    ensures
        claims[i].1->0 < u64::MAX ==> next_above(stream, claims) == Some(
            (claims[i].1->0 + 1) as u64,
        ),
        claims[i].1->0 == u64::MAX ==> next_above(stream, claims) is None,
{
    lemma_highest(stream, claims, i);
    lemma_highest_is_claimed(stream, claims);
}

/// A stream nothing claims a number of begins at zero.
pub proof fn law_a_stream_begins_at_zero(
    stream: Seq<char>,
    claims: Seq<(Option<Seq<char>>, Option<u64>)>,
)
    requires
        forall|j: int|
            0 <= j < claims.len() ==> (#[trigger] claims[j]).0 != Some(stream) || claims[j].1 is None,
    ensures
        next_above(stream, claims) == Some(0u64),
{
    lemma_highest_is_claimed(stream, claims);
}

/// What a line claims is what it holds under `stream` and `seq`.
pub proof fn law_what_a_line_claims(lines: Seq<Seq<char>>, i: int)
    requires
        0 <= i < lines.len(),
    ensures
        line_claims(lines).len() == lines.len(),
        line_claims(lines)[i].0 == text_at(lines[i], "stream"@),
        line_claims(lines)[i].1 == count_at(lines[i], "seq"@),
{
}

proof fn lemma_updated_at(
    fields: Seq<(String, Json)>,
    at: int,
    value: Json,
    name: Seq<char>,
    from: int,
)
    requires
        0 <= at < fields.len(),
        0 <= from,
    ensures
        json::field_at(fields.update(at, (fields[at].0, value)), name, from) == json::field_at(
            fields,
            name,
            from,
        ),
    decreases fields.len() - from,
{
    if from < fields.len() {
        lemma_updated_at(fields, at, value, name, from + 1);
    }
}

proof fn lemma_pushed_at(fields: Seq<(String, Json)>, one: (String, Json), name: Seq<char>, from: int)
    requires
        0 <= from <= fields.len(),
    ensures
        json::field_at(fields.push(one), name, from) == (if json::field_at(fields, name, from)
            is Some {
            json::field_at(fields, name, from)
        } else if one.0@ == name {
            Some(fields.len() as int)
        } else {
            None
        }),
    decreases fields.len() - from,
{
    if from < fields.len() {
        lemma_pushed_at(fields, one, name, from + 1);
    } else {
        assert(json::field_at(fields.push(one), name, from + 1) is None);
    }
}

proof fn lemma_found_within(fields: Seq<(String, Json)>, name: Seq<char>, from: int)
    requires
        0 <= from,
    ensures
        json::field_at(fields, name, from) matches Some(i) ==> from <= i < fields.len()
            && fields[i].0@ == name,
    decreases fields.len() - from,
{
    if from < fields.len() {
        lemma_found_within(fields, name, from + 1);
    }
}

/// A payload holds under each name the value it was last given, and nothing under a name
/// it was not given.
pub proof fn law_a_payload_holds_what_it_was_last_given(
    fields: Seq<(String, Json)>,
    name: Seq<char>,
)
    ensures
        (forall|j: int| 0 <= j < fields.len() ==> (#[trigger] fields[j]).0@ != name) ==> field_in(
            payload_fields(fields),
            name,
        ) is None,
        forall|i: int|
            0 <= i < fields.len() && fields[i].0@ == name && (forall|j: int|
                i < j < fields.len() ==> (#[trigger] fields[j]).0@ != name) ==> field_in(
                payload_fields(fields),
                name,
            ) == Some((#[trigger] fields[i]).1),
    decreases fields.len(),
{
    if fields.len() > 0 {
        let before = fields.drop_last();
        let last = fields.last();
        assert(last == fields[fields.len() - 1]);
        law_a_payload_holds_what_it_was_last_given(before, name);
        let held = payload_fields(before);
        let at = json::field_at(held, last.0@, 0);
        lemma_found_within(held, last.0@, 0);
        lemma_found_within(held, name, 0);
        if at is Some {
            lemma_updated_at(held, at->0, last.1, name, 0);
        } else {
            lemma_pushed_at(held, last, name, 0);
        }
        assert(last.0@ == name ==> field_in(payload_fields(fields), name) == Some(last.1));
        assert(last.0@ != name ==> field_in(payload_fields(fields), name) == field_in(held, name));
        if forall|j: int| 0 <= j < fields.len() ==> (#[trigger] fields[j]).0@ != name {
            assert forall|j: int| 0 <= j < before.len() implies (#[trigger] before[j]).0@ != name by {
                assert(fields[j].0@ != name);
            }
        }
        assert forall|i: int|
            0 <= i < fields.len() && fields[i].0@ == name && (forall|j: int|
                i < j < fields.len() ==> (#[trigger] fields[j]).0@ != name) implies field_in(
            payload_fields(fields),
            name,
        ) == Some((#[trigger] fields[i]).1) by {
            if i < fields.len() - 1 {
                assert(fields[fields.len() - 1].0@ != name);
                assert(before[i] == fields[i]);
                assert forall|j: int| i < j < before.len() implies (#[trigger] before[j]).0@
                    != name by {
                    assert(fields[j].0@ != name);
                }
            }
        }
    }
}

/// A record can start wherever its opening stands, and nowhere else: a brace, then the
/// name of its first field in quotes, then a colon.
pub proof fn law_a_record_starts_at_its_opening(bytes: Seq<u8>, from: int)
    requires
        0 <= from,
    ensures
        forall|p: int| #[trigger]
            starts_from(bytes, from).contains(p) <==> from <= p && p + 5 <= bytes.len() && bytes[p]
                == '{' as u8 && bytes[p + 1] == '"' as u8 && bytes[p + 2] == 'v' as u8 && bytes[p
                + 3] == '"' as u8 && bytes[p + 4] == ':' as u8,
        forall|i: int, j: int|
            0 <= i < j < starts_from(bytes, from).len() ==> #[trigger] starts_from(bytes, from)[i]
                < #[trigger] starts_from(bytes, from)[j],
    decreases bytes.len() - from,
{
    let all = starts_from(bytes, from);
    if from < bytes.len() {
        law_a_record_starts_at_its_opening(bytes, from + 1);
        let rest = starts_from(bytes, from + 1);
        lemma_opens_at(bytes, from);
        assert forall|p: int| #[trigger] all.contains(p) <==> from <= p && p + 5 <= bytes.len()
            && bytes[p] == '{' as u8 && bytes[p + 1] == '"' as u8 && bytes[p + 2] == 'v' as u8
            && bytes[p + 3] == '"' as u8 && bytes[p + 4] == ':' as u8 by {
            if opens_at(bytes, from) {
                if all.contains(p) {
                    let k = choose|k: int| 0 <= k < all.len() && all[k] == p;
                    if k > 0 {
                        assert(rest[k - 1] == p);
                        assert(rest.contains(p));
                    }
                }
                if rest.contains(p) {
                    let k = choose|k: int| 0 <= k < rest.len() && rest[k] == p;
                    assert(all[k + 1] == p);
                }
                assert(all[0] == from);
            } else {
                assert(rest.contains(p) || !rest.contains(p));
            }
        }
        assert forall|i: int, j: int| 0 <= i < j < all.len() implies #[trigger] all[i]
            < #[trigger] all[j] by {
            if opens_at(bytes, from) {
                assert(rest.contains(rest[j - 1]));
                if i > 0 {
                    assert(rest[i - 1] < rest[j - 1]);
                }
            }
        }
    } else {
        assert forall|p: int| !#[trigger] all.contains(p) by {}
    }
}

proof fn lemma_opens_at(bytes: Seq<u8>, at: int)
    requires
        0 <= at,
    ensures
        opens_at(bytes, at) <==> at + 5 <= bytes.len() && bytes[at] == '{' as u8 && bytes[at + 1]
            == '"' as u8 && bytes[at + 2] == 'v' as u8 && bytes[at + 3] == '"' as u8 && bytes[at
            + 4] == ':' as u8,
{
    if at + 5 <= bytes.len() {
        let head = bytes.subrange(at, at + 5);
        assert(head[0] == bytes[at] && head[1] == bytes[at + 1] && head[2] == bytes[at + 2]
            && head[3] == bytes[at + 3] && head[4] == bytes[at + 4]);
        if bytes[at] == 123 && bytes[at + 1] == 34 && bytes[at + 2] == 118 && bytes[at + 3] == 34
            && bytes[at + 4] == 58 {
            assert(head =~= RECORD_OPENING@);
        }
    }
}

proof fn lemma_first_tail(tails: Seq<Option<Envelope>>, from: int)
    requires
        0 <= from <= tails.len(),
    ensures
        match first_tail(tails, from) {
            Some(at) => from <= at < tails.len() && tails[at] is Some && forall|j: int|
                from <= j < at ==> #[trigger] tails[j] is None,
            None => forall|j: int| from <= j < tails.len() ==> #[trigger] tails[j] is None,
        },
    decreases tails.len() - from,
{
    if from < tails.len() {
        lemma_first_tail(tails, from + 1);
    }
}

/// Which of the five a line is. A blank line is nothing. A line whose newline never landed
/// is cut short, whatever a parser makes of it. A line that is a whole record is that
/// record. Otherwise the first whole record that starts further in is kept, and what
/// stands before it is a fragment; and a line with none is cut short where it stops
/// midway and unreadable where it does not.
pub proof fn law_which_of_the_five_a_line_is(line: Line)
    requires
        line.tails@.len() == starts(line.record.text@).len(),
    ensures
        found(line) is Blank <==> blank(line.record.text@),
        !blank(line.record.text@) && !line.record.terminated ==> found(line) is Truncated,
        !blank(line.record.text@) && line.record.terminated ==> {
            &&& line.whole matches Parsed::Whole(envelope) ==> found(line) == Found::Whole(envelope)
            &&& !(line.whole is Whole) ==> {
                &&& forall|k: int|
                    0 <= k < line.tails@.len() && line.tails@[k] is Some && (forall|j: int|
                        0 <= j < k ==> #[trigger] line.tails@[j] is None) ==> found(line)
                        == Found::Glued(
                        starts(line.record.text@)[k],
                        (#[trigger] line.tails@[k])->0,
                    )
                &&& (forall|k: int| 0 <= k < line.tails@.len() ==> #[trigger] line.tails@[k] is None)
                    ==> found(line) == (if line.whole is Incomplete {
                    Found::Truncated
                } else {
                    Found::Unparseable
                })
            }
        },
{
    lemma_first_tail(line.tails@, 0);
    let at = first_tail(line.tails@, 0);
    if !blank(line.record.text@) && line.record.terminated && !(line.whole is Whole) {
        assert forall|k: int|
            0 <= k < line.tails@.len() && line.tails@[k] is Some && (forall|j: int|
                0 <= j < k ==> #[trigger] line.tails@[j] is None) implies found(line)
            == Found::Glued(starts(line.record.text@)[k], (#[trigger] line.tails@[k])->0) by {
            if at is Some && at->0 < k {
                assert(line.tails@[at->0] is None);
            }
            if at is Some && at->0 > k {
                assert(line.tails@[k] is None);
            }
        }
    }
}

/// A read hands back the record of every line that holds one, and nothing for a line that
/// does not, in the order they were appended.
pub proof fn law_a_read_hands_back_every_record(lines: Seq<Line>)
    ensures
        envelopes(lines) == lines.filter(
            |l: Line| found(l) is Whole || found(l) is Glued,
        ).map_values(
            |l: Line|
                match found(l) {
                    Found::Glued(_, envelope) => envelope,
                    other => other->Whole_0,
                },
        ),
    decreases lines.len(),
{
    reveal(Seq::filter);
    let keep = |l: Line| found(l) is Whole || found(l) is Glued;
    let held = |l: Line|
        match found(l) {
            Found::Glued(_, envelope) => envelope,
            other => other->Whole_0,
        };
    if lines.len() > 0 {
        law_a_read_hands_back_every_record(lines.drop_last());
        let before = lines.drop_last().filter(keep);
        assert(before.push(lines.last()).map_values(held) =~= before.map_values(held).push(
            held(lines.last()),
        ));
    } else {
        assert(lines.filter(keep).map_values(held) =~= Seq::empty());
    }
}

/// What a store lost is told line by line: every record that is cut short, with how many
/// bytes of it are lost — the fragment alone where a whole record follows it.
pub proof fn law_what_is_cut_short_is_told(lines: Seq<Line>)
    ensures
        truncations(lines) == lines.filter(
            |l: Line| found(l) is Truncated || found(l) is Glued,
        ).map_values(
            |l: Line|
                Loss {
                    line: l.record.line,
                    offset: l.record.offset,
                    bytes: match found(l) {
                        Found::Glued(lost, _) => lost as u64,
                        _ => l.record.bytes,
                    },
                },
        ),
    decreases lines.len(),
{
    reveal(Seq::filter);
    let keep = |l: Line| found(l) is Truncated || found(l) is Glued;
    let told = |l: Line|
        Loss {
            line: l.record.line,
            offset: l.record.offset,
            bytes: match found(l) {
                Found::Glued(lost, _) => lost as u64,
                _ => l.record.bytes,
            },
        };
    if lines.len() > 0 {
        law_what_is_cut_short_is_told(lines.drop_last());
        let before = lines.drop_last().filter(keep);
        assert(before.push(lines.last()).map_values(told) =~= before.map_values(told).push(
            told(lines.last()),
        ));
    } else {
        assert(lines.filter(keep).map_values(told) =~= Seq::empty());
    }
}

/// And so is every whole line this build cannot read, with all of its bytes.
pub proof fn law_what_cannot_be_read_is_told(lines: Seq<Line>)
    ensures
        unparseables(lines) == lines.filter(|l: Line| found(l) is Unparseable).map_values(
            |l: Line|
                Loss { line: l.record.line, offset: l.record.offset, bytes: l.record.bytes },
        ),
    decreases lines.len(),
{
    reveal(Seq::filter);
    let keep = |l: Line| found(l) is Unparseable;
    let told = |l: Line|
        Loss { line: l.record.line, offset: l.record.offset, bytes: l.record.bytes };
    if lines.len() > 0 {
        law_what_cannot_be_read_is_told(lines.drop_last());
        let before = lines.drop_last().filter(keep);
        assert(before.push(lines.last()).map_values(told) =~= before.map_values(told).push(
            told(lines.last()),
        ));
    } else {
        assert(lines.filter(keep).map_values(told) =~= Seq::empty());
    }
}

/// A strict replay reports a line exactly where it holds a fragment or cannot be read.
pub proof fn law_what_a_strict_replay_reports(line: Line)
    ensures
        is_lost(found(line)) <==> !(found(line) is Whole) && !(found(line) is Blank),
{
}

/// A view speaks of each way a store lost something where it did, in one order, and says
/// nothing of a store that lost nothing.
pub proof fn law_a_view_speaks_of_what_was_lost(
    truncated: Seq<Loss>,
    unparseable: Seq<Loss>,
    healed: Seq<TornTail>,
)
    ensures
        ({
            let told = said_parts(truncated, unparseable, healed);
            let a = if truncated.len() > 0 { 1int } else { 0int };
            let b = if unparseable.len() > 0 { 1int } else { 0int };
            let c = if healed.len() > 0 { 1int } else { 0int };
            &&& told.len() == a + b + c
            &&& truncated.len() > 0 ==> told[0] == losses_text(
                truncated,
                "truncated record"@,
                "truncated records"@,
            )
            &&& unparseable.len() > 0 ==> told[a] == losses_text(
                unparseable,
                "line this build cannot read"@,
                "lines this build cannot read"@,
            )
            &&& healed.len() > 0 ==> told[a + b] == healed_text(healed)
        }),
{
}

/// A teardown is written as its own word and read from no other, and where a stop says it
/// stands under its own name.
pub proof fn law_the_words_of_a_teardown(word: Seq<char>, teardown: StopTeardown)
    ensures
        StopTeardown::Signalled.word() == "signalled"@,
        StopTeardown::NotAttempted.word() == "not-attempted"@,
        StopTeardown::PartlySignalled.word() == "partly-signalled"@,
        StopTeardown::Elsewhere.word() == "elsewhere"@,
        StopTeardown::read(word) == Some(teardown) <==> word == teardown.word(),
        STOP_TEARDOWN@ == "teardown"@,
        SETTLED_LANDING@ == "landing"@,
{
    reveal_strlit("teardown");
    reveal_strlit("landing");
    law_a_teardown_round_trips(teardown);
}

/// What a stop says of its teardown is a word, or a mapping of that one word to nothing;
/// whatever else is there says nothing this build knows.
pub proof fn law_how_a_teardown_is_said(value: Json)
    ensures
        value matches Json::Text(word) ==> StopTeardown::said(value) == StopTeardown::read(word@),
        value matches Json::Object(fields) ==> (fields@.len() != 1 || !(fields@[0].1 is Null)
            ==> StopTeardown::said(value) is None),
        value matches Json::Object(fields) ==> (fields@.len() == 1 && fields@[0].1 is Null
            ==> StopTeardown::said(value) == StopTeardown::read(fields@[0].0@)),
        value is Null || value is Bool || value is Count || value is Debt || value is Number
            || value is List ==> StopTeardown::said(value) is None,
{
}

/// A settlement's payload says the status, then the outcome and the detail where it has
/// them.
pub proof fn law_what_a_settlement_writes(
    status: Seq<char>,
    outcome: Option<Seq<char>>,
    detail: Option<Seq<char>>,
)
    ensures
        ({
            let pairs = settled_pairs(status, outcome, detail);
            &&& pairs[0] == ("status"@, status)
            &&& outcome is Some ==> pairs[1] == ("outcome"@, outcome->0)
            &&& detail is Some ==> pairs.last() == ("detail"@, detail->0)
            &&& pairs.len() == 1 + (if outcome is Some {
                1int
            } else {
                0
            }) + (if detail is Some {
                1int
            } else {
                0
            })
        }),
{
}

/// What was lost is counted, in the singular where it is one, and placed: each loss by its
/// line, the byte it begins at and how many bytes it has.
pub proof fn law_how_losses_are_counted(
    losses: Seq<Loss>,
    one: Seq<char>,
    many: Seq<char>,
    healed: Seq<TornTail>,
)
    ensures
        losses_text(losses, one, many) == dec(losses.len()) + " "@ + (if losses.len() == 1 {
            one
        } else {
            many
        }) + ": "@ + join(
            losses.map_values(
                |l: Loss|
                    "line "@ + dec(l.line as nat) + " at byte "@ + dec(l.offset as nat) + " ("@
                        + dec(l.bytes as nat) + " bytes)"@,
            ),
            ", "@,
        ),
        healed_text(healed) == dec(healed.len()) + " fragment"@ + (if healed.len() == 1 {
            Seq::empty()
        } else {
            seq!['s']
        }) + " discarded at append: "@ + join(
            healed.map_values(
                |t: TornTail|
                    "byte "@ + dec(t.offset as nat) + " ("@ + dec(t.bytes as nat) + " bytes)"@,
            ),
            ", "@,
        ),
{
    reveal_strlit("");
    reveal_strlit("s");
    assert(""@ =~= Seq::empty());
    assert("s"@ =~= seq!['s']);
    assert(losses.map_values(|l: Loss| loss_text(l)) =~= losses.map_values(
        |l: Loss|
            "line "@ + dec(l.line as nat) + " at byte "@ + dec(l.offset as nat) + " ("@ + dec(
                l.bytes as nat,
            ) + " bytes)"@,
    ));
    assert(healed.map_values(|t: TornTail| torn_text(t)) =~= healed.map_values(
        |t: TornTail| "byte "@ + dec(t.offset as nat) + " ("@ + dec(t.bytes as nat) + " bytes)"@,
    ));
}

} // verus!
