//! What a reconciler finding asks the planner to commit, and what answers it.
//!
//! A finding that asks for an edit is raised under a stable correlation derived from what
//! it is about, the edit it asks for is recorded against that correlation, and committing
//! that edit answers it.
use vstd::prelude::*;

use sha2::Digest;

use crate::json::Json;
use crate::record;
use crate::record::{Key, Kind};
use crate::text;
use crate::text::{precedes, text_of, texts};

verus! {

/// Where a run records the edit each of its findings asked for.
pub const REQUESTS_FILE: &'static str = "finding-requests.json";

/// How much of a node id a correlation carries in readable form.
pub const READABLE: usize = 40;

/// How many hex digits of the digest a correlation carries.
pub const DIGEST: usize = 12;

/// The longest correlation there is.
pub const CORRELATION_LIMIT: usize = 128;

/// A graph edit a finding can ask for.
#[derive(Debug, Clone, Copy, PartialEq, Eq, Structural)]
pub enum Op {
    /// Take a node out of the graph and put another in its place.
    Retry,
}

impl Op {
    /// The word an op is written as.
    pub open spec fn spelled(self) -> Seq<char> {
        match self {
            Op::Retry => "retry"@,
        }
    }

    /// The op a word stands for.
    pub open spec fn read(word: Seq<char>) -> Option<Op> {
        if word == "retry"@ {
            Some(Op::Retry)
        } else {
            None
        }
    }

    /// The word an op is written as.
    pub fn word(self) -> (r: &'static str)
        ensures
            r@ == self.spelled(),
    {
        match self {
            Op::Retry => "retry",
        }
    }

    /// The op a word stands for.
    pub fn of_word(word: &str) -> (r: Option<Op>)
        ensures
            r == Op::read(word@),
    {
        if text::same(word, "retry") {
            Some(Op::Retry)
        } else {
            None
        }
    }
}

/// A finding that asks the planner for a graph edit, by what it is about.
///
/// None of them can recur per attempt, which is why the attempt is not part of the key:
/// each asks for the edit that takes its node out of the graph.
#[derive(Debug, Clone, Copy, PartialEq, Eq, Structural)]
pub enum FindingKind {
    /// A session this run cannot open, because the node's branch and its base conflict.
    SessionConflict,
}

impl FindingKind {
    /// The word the key carries for it.
    pub open spec fn spelled(self) -> Seq<char> {
        match self {
            FindingKind::SessionConflict => "session-conflict"@,
        }
    }

    /// The word the key carries for it.
    pub fn word(self) -> (r: &'static str)
        ensures
            r@ == self.spelled(),
    {
        match self {
            FindingKind::SessionConflict => "session-conflict",
        }
    }

    /// The op a finding of this kind asks the planner to commit.
    pub fn asks_for(self) -> (r: Op)
        ensures
            r == (match self {
                FindingKind::SessionConflict => Op::Retry,
            }),
    {
        match self {
            FindingKind::SessionConflict => Op::Retry,
        }
    }
}

/// The SHA-256 digest of some bytes.
pub uninterp spec fn sha256_of(bytes: Seq<u8>) -> Seq<u8>;

/// `sha2::Sha256::digest`: the digest of some bytes, which has 32.
#[verifier::external_body]
fn sha256(bytes: &Vec<u8>) -> (r: Vec<u8>)
    ensures
        r@ == sha256_of(bytes@),
        r@.len() == 32,
{
    sha2::Sha256::digest(bytes).to_vec()
}

/// An ASCII letter or digit.
pub open spec fn alphanumeric(c: char) -> bool {
    'a' <= c <= 'z' || 'A' <= c <= 'Z' || '0' <= c <= '9'
}

/// A character a correlation may carry.
pub open spec fn correlation_char(c: char) -> bool {
    alphanumeric(c) || c == '.' || c == '_' || c == ':' || c == '-'
}

/// A correlation: 1 to 128 ASCII letters, digits, `.`, `_`, `:` and `-`, starting with a
/// letter or a digit.
pub open spec fn is_correlation(text: Seq<char>) -> bool {
    &&& 1 <= text.len() <= CORRELATION_LIMIT
    &&& alphanumeric(text[0])
    &&& forall|i: int| 0 <= i < text.len() ==> correlation_char(#[trigger] text[i])
}

/// `onemessagebus::Correlation`'s `FromStr`, and `Correlation::as_str` of what it makes:
/// the text itself where it is a correlation, and nothing where it is not.
#[verifier::external_body]
fn spell_correlation(text: &str) -> (r: Option<String>)
    ensures
        text_of(r) == (if is_correlation(text@) {
            Some(text@)
        } else {
            None
        }),
{
    text.parse::<onemessagebus::Correlation>().ok().map(|made| made.as_str().to_owned())
}

/// A character a key keeps of a node id.
pub open spec fn readable_char(c: char) -> char {
    if alphanumeric(c) || c == '.' || c == '_' || c == '-' {
        c
    } else {
        '-'
    }
}

/// What a key keeps of a node id in readable form.
pub open spec fn readable(node: Seq<char>) -> Seq<char> {
    let kept = node.map_values(|c: char| readable_char(c));
    if kept.len() > READABLE {
        kept.take(READABLE as int)
    } else {
        kept
    }
}

/// A hex digit.
pub open spec fn hex_digit(n: u8) -> char {
    if n < 10 {
        (('0' as u32) + n) as char
    } else {
        (('a' as u32) + (n - 10)) as char
    }
}

/// The first `n` hex digits of some bytes.
pub open spec fn hex(bytes: Seq<u8>, n: nat) -> Seq<char>
    decreases n,
{
    if n == 0 || (n - 1) / 2 >= bytes.len() {
        Seq::empty()
    } else {
        let byte = bytes[(n - 1) as int / 2];
        hex(bytes, (n - 1) as nat).push(
            hex_digit(
                if (n - 1) % 2 == 0 {
                    byte / 16
                } else {
                    byte % 16
                },
            ),
        )
    }
}

/// What is digested of a finding: its kind and its node, with a separator neither can
/// contain between them.
pub open spec fn digested(kind: FindingKind, node: Seq<char>) -> Seq<u8> {
    vstd::utf8::encode_utf8(kind.spelled()) + seq![0u8] + vstd::utf8::encode_utf8(node)
}

/// The correlation a finding is raised under.
pub open spec fn key(kind: FindingKind, node: Seq<char>) -> Seq<char> {
    "finding."@ + kind.spelled() + "."@ + readable(node) + "."@ + hex(
        sha256_of(digested(kind, node)),
        DIGEST as nat,
    )
}

fn push_bytes(out: &mut Vec<u8>, text: &str)
    ensures
        final(out)@ == old(out)@ + vstd::utf8::encode_utf8(text@),
{
    let bytes = text.as_bytes();
    let ghost before = out@;
    let ghost all = vstd::utf8::encode_utf8(text@);
    let n: usize = bytes.len();
    let mut i: usize = 0;
    assert(out@ =~= before + all.take(0));
    while i < n
        invariant
            bytes@ == all,
            n == bytes@.len(),
            i <= n,
            out@ == before + all.take(i as int),
        decreases n - i,
    {
        out.push(bytes[i]);
        i += 1;
        assert(out@ =~= before + all.take(i as int));
    }
    assert(all.take(all.len() as int) =~= all);
}

fn digit(n: u8) -> (r: char)
    requires
        n < 16,
    ensures
        r == hex_digit(n),
{
    match n {
        0 => '0',
        1 => '1',
        2 => '2',
        3 => '3',
        4 => '4',
        5 => '5',
        6 => '6',
        7 => '7',
        8 => '8',
        9 => '9',
        10 => 'a',
        11 => 'b',
        12 => 'c',
        13 => 'd',
        14 => 'e',
        _ => 'f',
    }
}

fn hex_text(bytes: &Vec<u8>) -> (r: String)
    requires
        bytes@.len() == 32,
    ensures
        r@ == hex(bytes@, DIGEST as nat),
{
    let mut out: String = String::new();
    let mut i: usize = 0;
    while i < DIGEST
        invariant
            bytes@.len() == 32,
            i <= DIGEST,
            out@ == hex(bytes@, i as nat),
        decreases DIGEST - i,
    {
        let byte: u8 = bytes[i / 2];
        let half: u8 = if i % 2 == 0 {
            byte / 16
        } else {
            byte % 16
        };
        out.push(digit(half));
        i += 1;
    }
    out
}

fn readable_text(node: &str) -> (r: String)
    ensures
        r@ == readable(node@),
{
    let chars = text::chars_of(node);
    let ghost kept = node@.map_values(|c: char| readable_char(c));
    let n: usize = if chars.len() > READABLE {
        READABLE
    } else {
        chars.len()
    };
    let mut out: String = String::new();
    let mut i: usize = 0;
    while i < n
        invariant
            chars@ == node@,
            kept == node@.map_values(|c: char| readable_char(c)),
            n <= chars@.len(),
            i <= n,
            out@ == kept.take(i as int),
        decreases n - i,
    {
        let c: char = chars[i];
        let keep: bool = ('a' <= c && c <= 'z') || ('A' <= c && c <= 'Z') || ('0' <= c && c <= '9')
            || c == '.' || c == '_' || c == '-';
        out.push(
            if keep {
                c
            } else {
                '-'
            },
        );
        i += 1;
        assert(out@ =~= kept.take(i as int));
    }
    assert(kept.take(kept.len() as int) =~= kept);
    out
}

/// A digit of a lowercase hexadecimal number.
pub open spec fn is_hex(c: char) -> bool {
    '0' <= c <= '9' || 'a' <= c <= 'f'
}

/// A text ends in a full stop and exactly `n` hex digits.
pub open spec fn ends_in_digest(text: Seq<char>, n: nat) -> bool {
    &&& text.len() > n
    &&& text[text.len() - n - 1] == '.'
    &&& forall|i: int| text.len() - n <= i < text.len() ==> is_hex(#[trigger] text[i])
}

proof fn lemma_hex(bytes: Seq<u8>, n: nat)
    requires
        n <= 2 * bytes.len(),
    ensures
        hex(bytes, n).len() == n,
        forall|i: int| 0 <= i < n ==> is_hex(#[trigger] hex(bytes, n)[i]),
        forall|i: int| 0 <= i < n ==> correlation_char(#[trigger] hex(bytes, n)[i]),
    decreases n,
{
    if n > 0 {
        lemma_hex(bytes, (n - 1) as nat);
    }
}

proof fn lemma_joined(a: Seq<char>, b: Seq<char>)
    requires
        forall|i: int| 0 <= i < a.len() ==> correlation_char(#[trigger] a[i]),
        forall|i: int| 0 <= i < b.len() ==> correlation_char(#[trigger] b[i]),
    ensures
        forall|i: int| 0 <= i < (a + b).len() ==> correlation_char(#[trigger] (a + b)[i]),
{
}

/// Every finding has a key this build can spell.
proof fn lemma_key_is_a_correlation(kind: FindingKind, node: Seq<char>)
    requires
        sha256_of(digested(kind, node)).len() == 32,
    ensures
        is_correlation(key(kind, node)),
        hex(sha256_of(digested(kind, node)), DIGEST as nat).len() == DIGEST,
        ends_in_digest(key(kind, node), DIGEST as nat),
{
    reveal_strlit("finding.");
    reveal_strlit(".");
    reveal_strlit("session-conflict");
    let digest = hex(sha256_of(digested(kind, node)), DIGEST as nat);
    lemma_hex(sha256_of(digested(kind, node)), DIGEST as nat);
    let a = "finding."@ + kind.spelled();
    let b = a + "."@;
    let c = b + readable(node);
    let d = c + "."@;
    lemma_joined("finding."@, kind.spelled());
    lemma_joined(a, "."@);
    lemma_joined(b, readable(node));
    lemma_joined(c, "."@);
    lemma_joined(d, digest);
    assert(key(kind, node)[0] == 'f');
    assert(key(kind, node) =~= d + digest);
    assert(d[d.len() - 1] == '.');
    assert forall|i: int| d.len() <= i < (d + digest).len() implies is_hex(
        #[trigger] (d + digest)[i],
    ) by {
        assert((d + digest)[i] == digest[i - d.len()]);
    }
}

/// The correlation a finding of a kind about a node is raised under.
///
/// Stable: the same finding about the same node yields the same key however often it is
/// raised. Readable at the front so a key says what it is, and digested at the back because
/// two node ids that read alike still differ there: every key ends in exactly [`DIGEST`]
/// hex digits.
pub fn correlation(kind: FindingKind, node: &str) -> (r: Option<String>)
    ensures
        text_of(r) == Some(key(kind, node@)),
        is_correlation(key(kind, node@)),
        r is Some && ends_in_digest(r->0@, DIGEST as nat),
        hex(sha256_of(digested(kind, node@)), DIGEST as nat).len() == DIGEST,
{
    let mut message: Vec<u8> = Vec::new();
    push_bytes(&mut message, kind.word());
    message.push(0);
    push_bytes(&mut message, node);
    assert(message@ =~= digested(kind, node@));
    let digest = sha256(&message);
    let tail = hex_text(&digest);
    let front = readable_text(node);
    let mut spelled: String = String::from_str("finding.");
    spelled.append(kind.word());
    spelled.append(".");
    spelled.append(front.as_str());
    spelled.append(".");
    spelled.append(tail.as_str());
    proof {
        lemma_key_is_a_correlation(kind, node@);
    }
    spell_correlation(spelled.as_str())
}

/// The graph edit one finding asks the planner to commit.
#[derive(Debug, PartialEq, Eq)]
pub struct RequestedEdit {
    /// The op it asks for.
    pub op: Op,
    /// The node it asks for it on.
    pub node: String,
}

/// What each finding of a run asked for, by the correlation each was raised under, in the
/// order of those.
pub type Requests = Vec<(String, RequestedEdit)>;

/// What each finding asked for, as contracts speak of it.
pub open spec fn asked(requests: Seq<(String, RequestedEdit)>) -> Seq<(Seq<char>, Op, Seq<char>)> {
    requests.map_values(|r: (String, RequestedEdit)| (r.0@, r.1.op, r.1.node@))
}

/// A request recorded: in the place of one under the same correlation, and else before the
/// first whose correlation comes after its own.
pub open spec fn with_request(
    list: Seq<(Seq<char>, Op, Seq<char>)>,
    request: (Seq<char>, Op, Seq<char>),
) -> Seq<(Seq<char>, Op, Seq<char>)>
    decreases list.len(),
{
    if list.len() == 0 {
        seq![request]
    } else if list[0].0 == request.0 {
        seq![request] + list.skip(1)
    } else if precedes(request.0, list[0].0) {
        seq![request] + list
    } else {
        seq![list[0]] + with_request(list.skip(1), request)
    }
}

/// Record that the finding a correlation names asks for an op on a node.
pub fn requests(recorded: &mut Requests, correlation: &str, op: Op, node: &str)
    ensures
        asked(final(recorded)@) == with_request(
            asked(old(recorded)@),
            (correlation@, op, node@),
        ),
{
    let ghost list = asked(recorded@);
    let ghost request = (correlation@, op, node@);
    let mut i: usize = 0;
    assert(list.skip(0) =~= list);
    assert(list.take(0) + with_request(list, request) =~= with_request(list, request));
    while i < recorded.len() && !text::same(recorded[i].0.as_str(), correlation) && !text::before(
        correlation,
        recorded[i].0.as_str(),
    )
        invariant
            list == asked(recorded@),
            recorded@ == old(recorded)@,
            list.len() == recorded@.len(),
            request == (correlation@, op, node@),
            i <= recorded@.len(),
            list.take(i as int) + with_request(list.skip(i as int), request) == with_request(
                list,
                request,
            ),
        decreases recorded@.len() - i,
    {
        proof {
            let rest = list.skip(i as int);
            assert(rest[0] == list[i as int]);
            assert(list[i as int].0 == recorded@[i as int].0@);
            assert(rest.skip(1) =~= list.skip(i + 1));
            assert(list.take(i as int) + with_request(rest, request) =~= list.take(i + 1)
                + with_request(list.skip(i + 1), request));
        }
        i += 1;
    }
    let edit = RequestedEdit { op, node: node.to_owned() };
    let replaces: bool = i < recorded.len() && text::same(recorded[i].0.as_str(), correlation);
    proof {
        let rest = list.skip(i as int);
        if i < list.len() {
            assert(rest[0] == list[i as int]);
            assert(list[i as int].0 == recorded@[i as int].0@);
        }
    }
    if replaces {
        let (kept, _was) = recorded.remove(i);
        recorded.insert(i, (kept, edit));
        proof {
            let rest = list.skip(i as int);
            assert(asked(recorded@) =~= list.take(i as int) + (seq![request] + rest.skip(1)));
        }
    } else {
        recorded.insert(i, (correlation.to_owned(), edit));
        proof {
            let rest = list.skip(i as int);
            if rest.len() == 0 {
                assert(seq![request] + rest =~= seq![request]);
            }
            assert(asked(recorded@) =~= list.take(i as int) + (seq![request] + rest));
        }
    }
}

/// What a commit changed of a graph, as far as a finding can have asked for it.
#[derive(Debug, PartialEq, Eq)]
pub enum Committed {
    /// A retry of a node.
    Retry(String),
    /// Something else.
    Other,
}

/// A committed change is the edit a finding asked for: matched on what changed, and not on
/// the command that asked for it.
pub open spec fn answers(committed: Committed, request: (Seq<char>, Op, Seq<char>)) -> bool {
    match committed {
        Committed::Retry(node) => request.1 == Op::Retry && request.2 == node@,
        Committed::Other => false,
    }
}

/// Some committed change is the edit a finding asked for.
pub open spec fn some_answers(
    operations: Seq<Committed>,
    request: (Seq<char>, Op, Seq<char>),
) -> bool {
    exists|i: int| 0 <= i < operations.len() && answers(#[trigger] operations[i], request)
}

/// Whether one committed change is the edit a request asked for.
pub fn satisfies(operation: &Committed, request: &RequestedEdit) -> (r: bool)
    ensures
        forall|key: Seq<char>|
            r == #[trigger] answers(*operation, (key, request.op, request.node@)),
{
    match operation {
        Committed::Retry(node) => request.op == Op::Retry && text::same(
            request.node.as_str(),
            node.as_str(),
        ),
        Committed::Other => false,
    }
}

/// What a committed edit says to the finding that asked for it.
pub open spec fn answer_text(op: Op, node: Seq<char>) -> Seq<char> {
    "answered by the edit it asked for: a `"@ + op.spelled() + "` of '"@ + node
        + "' was committed."@
}

/// What a committed edit says to the finding that asked for it.
pub fn answer(request: &RequestedEdit) -> (r: String)
    ensures
        r@ == answer_text(request.op, request.node@),
{
    let mut out: String = String::from_str("answered by the edit it asked for: a `");
    out.append(request.op.word());
    out.append("` of '");
    out.append(request.node.as_str());
    out.append("' was committed.");
    out
}

/// The answers a commit owes, in the order of their correlations: to each finding whose
/// requested edit was just committed and that nothing has answered yet.
pub open spec fn owed(
    recorded: Seq<(Seq<char>, Op, Seq<char>)>,
    answered: Seq<Seq<char>>,
    operations: Seq<Committed>,
) -> Seq<(Seq<char>, Seq<char>)>
    decreases recorded.len(),
{
    if recorded.len() == 0 {
        Seq::empty()
    } else {
        let before = owed(recorded.drop_last(), answered, operations);
        let request = recorded.last();
        if !answered.contains(request.0) && some_answers(operations, request) {
            before.push((request.0, answer_text(request.1, request.2)))
        } else {
            before
        }
    }
}

fn named(list: &Vec<String>, name: &str) -> (r: bool)
    ensures
        r == texts(list@).contains(name@),
{
    let mut i: usize = 0;
    while i < list.len()
        invariant
            i <= list@.len(),
            forall|j: int| 0 <= j < i ==> #[trigger] texts(list@)[j] != name@,
        decreases list@.len() - i,
    {
        if text::same(list[i].as_str(), name) {
            assert(texts(list@)[i as int] == name@);
            return true;
        }
        i += 1;
    }
    false
}

fn satisfied(operations: &Vec<Committed>, request: &RequestedEdit) -> (r: bool)
    ensures
        forall|key: Seq<char>|
            r == #[trigger] some_answers(operations@, (key, request.op, request.node@)),
{
    let mut i: usize = 0;
    while i < operations.len()
        invariant
            i <= operations@.len(),
            forall|j: int, key: Seq<char>|
                0 <= j < i ==> !#[trigger] answers(
                    operations@[j],
                    (key, request.op, request.node@),
                ),
        decreases operations@.len() - i,
    {
        if satisfies(&operations[i], request) {
            proof {
                assert forall|key: Seq<char>| #[trigger]
                    some_answers(operations@, (key, request.op, request.node@)) by {
                    assert(answers(operations@[i as int], (key, request.op, request.node@)));
                }
            }
            return true;
        }
        i += 1;
    }
    false
}

/// The answers a commit owes: the correlation of each finding it answers, and what is said.
///
/// A committed edit that is not the one a finding asked for answers nothing, and a finding
/// a reply already answered is not answered twice.
pub fn answer_requested(
    recorded: &Requests,
    answered: &Vec<String>,
    operations: &Vec<Committed>,
) -> (r: Vec<(String, String)>)
    ensures
        crate::plan::pairs_of(r@) == owed(asked(recorded@), texts(answered@), operations@),
{
    let ghost model = asked(recorded@);
    let mut out: Vec<(String, String)> = Vec::new();
    let mut i: usize = 0;
    assert(crate::plan::pairs_of(out@) =~= owed(model.take(0), texts(answered@), operations@));
    while i < recorded.len()
        invariant
            model == asked(recorded@),
            i <= recorded@.len(),
            crate::plan::pairs_of(out@) == owed(
                model.take(i as int),
                texts(answered@),
                operations@,
            ),
        decreases recorded@.len() - i,
    {
        let request = &recorded[i].1;
        proof {
            assert(model.take(i + 1).drop_last() =~= model.take(i as int));
            assert(model.take(i + 1).last() == (recorded@[i as int].0@, request.op, request.node@));
        }
        if !named(answered, recorded[i].0.as_str()) && satisfied(operations, request) {
            let said = answer(request);
            let ghost was = crate::plan::pairs_of(out@);
            let ghost added = (recorded@[i as int].0@, said@);
            out.push((recorded[i].0.clone(), said));
            assert(crate::plan::pairs_of(out@) =~= was.push(added));
        }
        i += 1;
    }
    assert(model.take(model.len() as int) =~= model);
    out
}

/// A command of a reply: the op it asks for, and the node it is on.
#[derive(Debug, PartialEq, Eq)]
pub struct Asked {
    /// The op's word.
    pub op: String,
    /// The node, where it is on one.
    pub target: Option<String>,
}

/// The request recorded under a correlation.
pub open spec fn request_of(
    recorded: Seq<(Seq<char>, Op, Seq<char>)>,
    correlation: Seq<char>,
    from: int,
) -> Option<(Op, Seq<char>)>
    decreases recorded.len() - from,
{
    if from < 0 || from >= recorded.len() {
        None
    } else if recorded[from].0 == correlation {
        Some((recorded[from].1, recorded[from].2))
    } else {
        request_of(recorded, correlation, from + 1)
    }
}

/// Some command asks for an op on a node.
pub open spec fn some_asks(commands: Seq<Asked>, op: Op, node: Seq<char>) -> bool {
    exists|i: int|
        0 <= i < commands.len() && (#[trigger] commands[i]).op@ == op.spelled() && text_of(
            commands[i].target,
        ) == Some(node)
}

/// Whether the commands of a reply carry the edit the finding a correlation names asked
/// for, and the run has already recorded the answer to it: whether one reply answered its
/// own question is a fact about that reply.
pub fn answered_alongside(
    recorded: &Requests,
    correlation: &str,
    commands: &Vec<Asked>,
    answered: &Vec<String>,
) -> (r: bool)
    ensures
        r == (match request_of(asked(recorded@), correlation@, 0) {
            Some((op, node)) => some_asks(commands@, op, node) && texts(answered@).contains(
                correlation@,
            ),
            None => false,
        }),
{
    let ghost model = asked(recorded@);
    let mut i: usize = 0;
    while i < recorded.len() && !text::same(recorded[i].0.as_str(), correlation)
        invariant
            model == asked(recorded@),
            model.len() == recorded@.len(),
            i <= recorded@.len(),
            request_of(model, correlation@, 0) == request_of(model, correlation@, i as int),
        decreases recorded@.len() - i,
    {
        assert(model[i as int].0 == recorded@[i as int].0@);
        i += 1;
    }
    if i >= recorded.len() {
        return false;
    }
    let request = &recorded[i].1;
    assert(model[i as int] == (recorded@[i as int].0@, request.op, request.node@));
    let mut carried: bool = false;
    let mut j: usize = 0;
    while j < commands.len()
        invariant
            j <= commands@.len(),
            carried == exists|k: int|
                0 <= k < j && (#[trigger] commands@[k]).op@ == request.op.spelled() && text_of(
                    commands@[k].target,
                ) == Some(request.node@),
        decreases commands@.len() - j,
    {
        if text::same(commands[j].op.as_str(), request.op.word()) && text::is_text(
            &commands[j].target,
            request.node.as_str(),
        ) {
            carried = true;
        }
        j += 1;
    }
    carried && named(answered, correlation)
}

/// The keys of one recorded request.
pub open spec fn request_keys() -> Seq<Key> {
    seq![
        Key { name: "op", kind: Kind::Text, required: true },
        Key { name: "node", kind: Kind::Text, required: true },
    ]
}

/// One entry of the record is a request this build would have written.
pub open spec fn is_request(field: (String, Json)) -> bool {
    &&& is_correlation(field.0@)
    &&& record::is_record(request_keys(), field.1)
    &&& Op::read(record::text_or_empty(field.1->Object_0@, "op"@)) is Some
}

/// One entry of the record, as contracts speak of it.
pub open spec fn request_in(field: (String, Json)) -> (Seq<char>, Op, Seq<char>) {
    (
        field.0@,
        Op::read(record::text_or_empty(field.1->Object_0@, "op"@))->0,
        record::text_or_empty(field.1->Object_0@, "node"@),
    )
}

/// Every entry of a document is a request this build would have written.
pub open spec fn is_record(document: Json) -> bool {
    document matches Json::Object(fields) && forall|i: int|
        0 <= i < fields@.len() ==> is_request(#[trigger] fields@[i])
}

/// The requests a document records, in the order of their correlations.
pub open spec fn requests_in(fields: Seq<(String, Json)>) -> Seq<(Seq<char>, Op, Seq<char>)>
    decreases fields.len(),
{
    if fields.len() == 0 {
        Seq::empty()
    } else {
        with_request(requests_in(fields.drop_last()), request_in(fields.last()))
    }
}

fn read_request(value: &Json) -> (r: Option<RequestedEdit>)
    ensures
        match r {
            Some(edit) => record::is_record(request_keys(), *value) && Op::read(
                record::text_or_empty(value->Object_0@, "op"@),
            ) == Some(edit.op) && edit.node@ == record::text_or_empty(value->Object_0@, "node"@),
            None => !record::is_record(request_keys(), *value) || Op::read(
                record::text_or_empty(value->Object_0@, "op"@),
            ) is None,
        },
{
    let keys: Vec<Key> = vec![
        Key { name: "op", kind: Kind::Text, required: true },
        Key { name: "node", kind: Kind::Text, required: true },
    ];
    assert(keys@ =~= request_keys());
    match record::check(&keys, value) {
        None => None,
        Some(fields) => {
            let word = record::read_text(fields, "op");
            match Op::of_word(word.as_str()) {
                Some(op) => Some(RequestedEdit { op, node: record::read_text(fields, "node") }),
                None => None,
            }
        },
    }
}

/// The run's record of what each of its findings asked for, read leniently: a run whose
/// record is absent or unreadable has asked for nothing, and its findings stay pending
/// rather than the commit that answers them failing.
#[verifier::loop_isolation(false)]
pub fn recorded(document: Option<&Json>) -> (r: Requests)
    ensures
        asked(r@) == (match document {
            Some(document) => if is_record(*document) {
                requests_in(document->Object_0@)
            } else {
                Seq::empty()
            },
            None => Seq::empty(),
        }),
{
    let mut out: Requests = Vec::new();
    assert(asked(out@) =~= Seq::empty());
    let document: &Json = match document {
        Some(document) => document,
        None => {
            return out;
        },
    };
    let fields: &Vec<(String, Json)> = match document {
        Json::Object(fields) => fields,
        _ => {
            return out;
        },
    };
    let mut i: usize = 0;
    assert(asked(out@) =~= requests_in(fields@.take(0)));
    while i < fields.len()
        invariant
            *document == Json::Object(*fields),
            i <= fields@.len(),
            forall|j: int| 0 <= j < i ==> is_request(#[trigger] fields@[j]),
            asked(out@) == requests_in(fields@.take(i as int)),
        decreases fields@.len() - i,
    {
        proof {
            assert(fields@.take(i + 1).drop_last() =~= fields@.take(i as int));
            assert(fields@.take(i + 1).last() == fields@[i as int]);
        }
        let named = spell_correlation(fields[i].0.as_str());
        let edit = read_request(&fields[i].1);
        match (named, edit) {
            (Some(named), Some(edit)) => {
                requests(&mut out, named.as_str(), edit.op, edit.node.as_str());
            },
            _ => {
                assert(!is_request(fields@[i as int]));
                let none: Requests = Vec::new();
                assert(asked(none@) =~= Seq::empty());
                return none;
            },
        }
        i += 1;
    }
    assert(fields@.take(fields@.len() as int) =~= fields@);
    out
}

/// An answered finding is answered once: committing the same edit again owes nothing
/// further.
pub proof fn law_a_finding_is_answered_once(
    recorded: Seq<(Seq<char>, Op, Seq<char>)>,
    answered: Seq<Seq<char>>,
    later: Seq<Seq<char>>,
    operations: Seq<Committed>,
)
    requires
        forall|k: Seq<char>| #[trigger] answered.contains(k) ==> later.contains(k),
        forall|i: int|
            0 <= i < owed(recorded, answered, operations).len() ==> later.contains(
                (#[trigger] owed(recorded, answered, operations)[i]).0,
            ),
    ensures
        owed(recorded, later, operations) == Seq::<(Seq<char>, Seq<char>)>::empty(),
    decreases recorded.len(),
{
    if recorded.len() > 0 {
        let shorter = recorded.drop_last();
        let all = owed(recorded, answered, operations);
        let before = owed(shorter, answered, operations);
        assert forall|i: int| 0 <= i < before.len() implies later.contains(
            (#[trigger] before[i]).0,
        ) by {
            assert(all[i] == before[i]);
        }
        law_a_finding_is_answered_once(shorter, answered, later, operations);
        let request = recorded.last();
        if !answered.contains(request.0) && some_answers(operations, request) {
            assert(all[before.len() as int].0 == request.0);
        }
    }
}

/// An edit no finding asked for answers nothing.
pub proof fn law_an_unasked_edit_answers_nothing(
    recorded: Seq<(Seq<char>, Op, Seq<char>)>,
    answered: Seq<Seq<char>>,
    operations: Seq<Committed>,
)
    requires
        forall|i: int|
            0 <= i < recorded.len() ==> !some_answers(operations, #[trigger] recorded[i]),
    ensures
        owed(recorded, answered, operations) == Seq::<(Seq<char>, Seq<char>)>::empty(),
    decreases recorded.len(),
{
    if recorded.len() > 0 {
        assert(!some_answers(operations, recorded.last()));
        assert forall|i: int| 0 <= i < recorded.drop_last().len() implies !some_answers(
            operations,
            #[trigger] recorded.drop_last()[i],
        ) by {
            assert(recorded.drop_last()[i] == recorded[i]);
        }
        law_an_unasked_edit_answers_nothing(recorded.drop_last(), answered, operations);
    }
}

/// What is digested tells every two nodes apart: only the digest's own collisions could
/// make two findings one question.
pub proof fn law_what_is_digested_tells_nodes_apart(
    kind: FindingKind,
    node: Seq<char>,
    other: Seq<char>,
)
    requires
        digested(kind, node) == digested(kind, other),
    ensures
        node == other,
{
    let front = vstd::utf8::encode_utf8(kind.spelled()) + seq![0u8];
    let a = vstd::utf8::encode_utf8(node);
    let b = vstd::utf8::encode_utf8(other);
    assert(a =~= (front + a).skip(front.len() as int));
    assert(b =~= (front + b).skip(front.len() as int));
    text::lemma_same_encoding(node, other);
}

/// The words and the bounds of a correlation.
pub proof fn law_the_words_of_a_finding()
    ensures
        Op::Retry.spelled() == "retry"@,
        FindingKind::SessionConflict.spelled() == "session-conflict"@,
        REQUESTS_FILE@ == "finding-requests.json"@,
        READABLE == 40,
        DIGEST == 12,
        CORRELATION_LIMIT == 128,
{
    reveal_strlit("finding-requests.json");
}

/// An op is read from its own word and from no other.
pub proof fn law_only_its_word_names_an_op(word: Seq<char>, op: Op)
    ensures
        Op::read(word) == Some(op) <==> word == op.spelled(),
        Op::read(word) is Some <==> word == "retry"@,
{
}

/// Which texts are correlations: at most 128 letters, digits, full stops, underscores,
/// colons and dashes, the first of them a letter or a digit.
pub proof fn law_which_texts_are_correlations(text: Seq<char>)
    ensures
        is_correlation(text) <==> {
            &&& text.len() > 0
            &&& text.len() <= 128
            &&& text[0] != '.' && text[0] != '_' && text[0] != ':' && text[0] != '-'
            &&& forall|i: int|
                0 <= i < text.len() ==> {
                    let c = #[trigger] text[i];
                    'a' <= c <= 'z' || 'A' <= c <= 'Z' || '0' <= c <= '9' || c == '.' || c == '_'
                        || c == ':' || c == '-'
                }
        },
{
    if is_correlation(text) {
        assert(correlation_char(text[0]));
    }
}

/// A key keeps the first forty characters of a node's id, with a dash for whatever a
/// correlation cannot carry.
pub proof fn law_what_a_key_keeps_of_a_node(node: Seq<char>, i: int)
    ensures
        readable(node).len() == (if node.len() > 40 {
            40
        } else {
            node.len()
        }),
        0 <= i < readable(node).len() ==> readable(node)[i] == (if 'a' <= node[i] <= 'z' || 'A'
            <= node[i] <= 'Z' || '0' <= node[i] <= '9' || node[i] == '.' || node[i] == '_'
            || node[i] == '-' {
            node[i]
        } else {
            '-'
        }),
{
    let kept = node.map_values(|c: char| readable_char(c));
    if 0 <= i < readable(node).len() {
        assert(kept[i] == readable_char(node[i]));
    }
}

/// A hex digit stands for its number, in lowercase, and the digits of some bytes are those
/// of each byte's two halves, the upper first.
pub proof fn law_how_bytes_are_written_in_hex(bytes: Seq<u8>, n: nat, i: int)
    requires
        n <= 2 * bytes.len(),
        0 <= i < n,
    ensures
        hex(bytes, n).len() == n,
        hex(bytes, n)[i] == seq![
            '0',
            '1',
            '2',
            '3',
            '4',
            '5',
            '6',
            '7',
            '8',
            '9',
            'a',
            'b',
            'c',
            'd',
            'e',
            'f',
        ][if i % 2 == 0 {
            bytes[i / 2] as int / 16
        } else {
            bytes[i / 2] as int % 16
        }],
    decreases n,
{
    lemma_hex(bytes, n);
    if i < n - 1 {
        law_how_bytes_are_written_in_hex(bytes, (n - 1) as nat, i);
        lemma_hex(bytes, (n - 1) as nat);
    } else {
        lemma_hex(bytes, (n - 1) as nat);
        let half = if i % 2 == 0 {
            bytes[i / 2] / 16
        } else {
            bytes[i / 2] % 16
        };
        assert(half < 16);
        assert(hex(bytes, n)[i] == hex_digit(half));
    }
}

/// A key says that it is a finding's, of which kind and about which node, and ends in
/// twelve digits of the digest of both.
pub proof fn law_what_a_key_is_made_of(kind: FindingKind, node: Seq<char>)
    ensures
        key(kind, node) == "finding."@ + kind.spelled() + "."@ + readable(node) + "."@ + hex(
            sha256_of(
                vstd::utf8::encode_utf8(kind.spelled()) + seq![0u8] + vstd::utf8::encode_utf8(node),
            ),
            12,
        ),
{
}

/// A request is found again under its correlation, and recording it leaves every other
/// request as it was.
pub proof fn law_a_request_is_found_under_its_correlation(
    list: Seq<(Seq<char>, Op, Seq<char>)>,
    request: (Seq<char>, Op, Seq<char>),
    other: Seq<char>,
)
    requires
        forall|i: int, j: int|
            0 <= i < j < list.len() ==> precedes((#[trigger] list[i]).0, (#[trigger] list[j]).0),
    ensures
        request_of(with_request(list, request), request.0, 0) == Some((request.1, request.2)),
        other != request.0 ==> request_of(with_request(list, request), other, 0) == request_of(
            list,
            other,
            0,
        ),
        forall|i: int, j: int|
            0 <= i < j < with_request(list, request).len() ==> precedes(
                (#[trigger] with_request(list, request)[i]).0,
                (#[trigger] with_request(list, request)[j]).0,
            ),
    decreases list.len(),
{
    lemma_request_recorded(list, request);
    let all = with_request(list, request);
    lemma_request_of(all, request.0, 0);
    lemma_request_of(all, other, 0);
    lemma_request_of(list, other, 0);
    let at = choose|k: int| 0 <= k < all.len() && #[trigger] all[k] == request;
    lemma_one_request(all, request.0, at);
    if other != request.0 {
        if exists|k: int| 0 <= k < list.len() && (#[trigger] list[k]).0 == other {
            let k = choose|k: int| 0 <= k < list.len() && (#[trigger] list[k]).0 == other;
            assert(list.contains(list[k]));
            assert(all.contains(list[k]));
            let m = choose|m: int| 0 <= m < all.len() && all[m] == list[k];
            lemma_one_request(all, other, m);
            lemma_one_request(list, other, k);
        } else {
            assert forall|m: int| 0 <= m < all.len() implies (#[trigger] all[m]).0 != other by {
                assert(all.contains(all[m]));
                if all[m] != request {
                    assert(list.contains(all[m]));
                    let k = choose|k: int| 0 <= k < list.len() && list[k] == all[m];
                    assert(list[k].0 != other);
                }
            }
        }
    }
}

proof fn lemma_request_of(
    list: Seq<(Seq<char>, Op, Seq<char>)>,
    correlation: Seq<char>,
    from: int,
)
    requires
        0 <= from <= list.len(),
    ensures
        match request_of(list, correlation, from) {
            Some((op, node)) => exists|k: int|
                from <= k < list.len() && #[trigger] list[k] == (correlation, op, node),
            None => forall|k: int|
                from <= k < list.len() ==> (#[trigger] list[k]).0 != correlation,
        },
    decreases list.len() - from,
{
    if from < list.len() {
        if list[from].0 == correlation {
            assert(list[from] == (correlation, list[from].1, list[from].2));
        } else {
            lemma_request_of(list, correlation, from + 1);
            if request_of(list, correlation, from + 1) is Some {
                let (op, node) = request_of(list, correlation, from + 1)->0;
                let k = choose|k: int|
                    from + 1 <= k < list.len() && #[trigger] list[k] == (correlation, op, node);
                assert(list[k] == (correlation, op, node));
            }
        }
    }
}

proof fn lemma_one_request(list: Seq<(Seq<char>, Op, Seq<char>)>, correlation: Seq<char>, at: int)
    requires
        forall|i: int, j: int|
            0 <= i < j < list.len() ==> precedes((#[trigger] list[i]).0, (#[trigger] list[j]).0),
        0 <= at < list.len(),
        list[at].0 == correlation,
    ensures
        request_of(list, correlation, 0) == Some((list[at].1, list[at].2)),
{
    lemma_request_of(list, correlation, 0);
    if request_of(list, correlation, 0) is None {
        assert(list[at].0 != correlation);
    } else {
        let (op, node) = request_of(list, correlation, 0)->0;
        let k = choose|k: int| 0 <= k < list.len() && #[trigger] list[k] == (correlation, op, node);
        text::lemma_precedes_irreflexive(correlation);
        if k < at {
            assert(precedes(list[k].0, list[at].0));
        }
        if at < k {
            assert(precedes(list[at].0, list[k].0));
        }
    }
}

proof fn lemma_request_recorded(
    list: Seq<(Seq<char>, Op, Seq<char>)>,
    request: (Seq<char>, Op, Seq<char>),
)
    requires
        forall|i: int, j: int|
            0 <= i < j < list.len() ==> precedes((#[trigger] list[i]).0, (#[trigger] list[j]).0),
    ensures
        ({
            let all = with_request(list, request);
            &&& exists|k: int| 0 <= k < all.len() && #[trigger] all[k] == request
            &&& forall|one: (Seq<char>, Op, Seq<char>)| #[trigger]
                all.contains(one) ==> one == request || list.contains(one)
            &&& forall|one: (Seq<char>, Op, Seq<char>)| #[trigger]
                list.contains(one) && one.0 != request.0 ==> all.contains(one)
            &&& forall|i: int, j: int|
                0 <= i < j < all.len() ==> precedes((#[trigger] all[i]).0, (#[trigger] all[j]).0)
        }),
    decreases list.len(),
{
    let all = with_request(list, request);
    if list.len() == 0 {
        assert(all[0] == request);
    } else if list[0].0 == request.0 {
        assert(all[0] == request);
        assert forall|one: (Seq<char>, Op, Seq<char>)| #[trigger] all.contains(one) implies one
            == request || list.contains(one) by {
            let k = choose|k: int| 0 <= k < all.len() && all[k] == one;
            if k > 0 {
                assert(list[k] == one);
            }
        }
        assert forall|one: (Seq<char>, Op, Seq<char>)| #[trigger]
            list.contains(one) && one.0 != request.0 implies all.contains(one) by {
            let k = choose|k: int| 0 <= k < list.len() && list[k] == one;
            assert(all[k] == one);
        }
        assert forall|i: int, j: int| 0 <= i < j < all.len() implies precedes(
            (#[trigger] all[i]).0,
            (#[trigger] all[j]).0,
        ) by {
            assert(precedes(list[i].0, list[j].0));
        }
    } else if precedes(request.0, list[0].0) {
        assert(all[0] == request);
        assert forall|one: (Seq<char>, Op, Seq<char>)| #[trigger] all.contains(one) implies one
            == request || list.contains(one) by {
            let k = choose|k: int| 0 <= k < all.len() && all[k] == one;
            if k > 0 {
                assert(list[k - 1] == one);
            }
        }
        assert forall|one: (Seq<char>, Op, Seq<char>)| #[trigger]
            list.contains(one) && one.0 != request.0 implies all.contains(one) by {
            let k = choose|k: int| 0 <= k < list.len() && list[k] == one;
            assert(all[k + 1] == one);
        }
        assert forall|i: int, j: int| 0 <= i < j < all.len() implies precedes(
            (#[trigger] all[i]).0,
            (#[trigger] all[j]).0,
        ) by {
            if i == 0 {
                if j > 1 {
                    assert(precedes(list[0].0, list[j - 1].0));
                    text::lemma_precedes_transitive(request.0, list[0].0, list[j - 1].0);
                }
            } else {
                assert(precedes(list[i - 1].0, list[j - 1].0));
            }
        }
    } else {
        let rest = list.skip(1);
        assert forall|i: int, j: int| 0 <= i < j < rest.len() implies precedes(
            (#[trigger] rest[i]).0,
            (#[trigger] rest[j]).0,
        ) by {
            assert(precedes(list[i + 1].0, list[j + 1].0));
        }
        lemma_request_recorded(rest, request);
        let more = with_request(rest, request);
        let at = choose|k: int| 0 <= k < more.len() && #[trigger] more[k] == request;
        assert(all[at + 1] == request);
        text::lemma_precedes_total(request.0, list[0].0);
        assert forall|one: (Seq<char>, Op, Seq<char>)| #[trigger] all.contains(one) implies one
            == request || list.contains(one) by {
            let k = choose|k: int| 0 <= k < all.len() && all[k] == one;
            if k == 0 {
                assert(list[0] == one);
            } else {
                assert(more[k - 1] == one);
                assert(more.contains(one));
                if one != request {
                    let q = choose|q: int| 0 <= q < rest.len() && rest[q] == one;
                    assert(list[q + 1] == one);
                }
            }
        }
        assert forall|one: (Seq<char>, Op, Seq<char>)| #[trigger]
            list.contains(one) && one.0 != request.0 implies all.contains(one) by {
            let k = choose|k: int| 0 <= k < list.len() && list[k] == one;
            if k == 0 {
                assert(all[0] == one);
            } else {
                assert(rest[k - 1] == one);
                assert(rest.contains(one));
                assert(more.contains(one));
                let q = choose|q: int| 0 <= q < more.len() && more[q] == one;
                assert(all[q + 1] == one);
            }
        }
        assert forall|i: int, j: int| 0 <= i < j < all.len() implies precedes(
            (#[trigger] all[i]).0,
            (#[trigger] all[j]).0,
        ) by {
            if i == 0 {
                assert(more.contains(more[j - 1]));
                if more[j - 1] != request {
                    let q = choose|q: int| 0 <= q < rest.len() && rest[q] == more[j - 1];
                    assert(precedes(list[0].0, list[q + 1].0));
                }
            } else {
                assert(precedes(more[i - 1].0, more[j - 1].0));
            }
        }
    }
}

/// A finding is answered by the edit it asked for, on the node it asked for it on, and by
/// nothing else.
pub proof fn law_what_answers_a_finding(
    committed: Committed,
    request: (Seq<char>, Op, Seq<char>),
)
    ensures
        answers(committed, request) <==> (committed matches Committed::Retry(node) && node@
            == request.2 && request.1 == Op::Retry),
{
}

/// A commit owes an answer to every finding it answers and nothing has answered yet, in
/// the order they are recorded, and to no other; and says which edit answered it.
pub proof fn law_what_a_commit_owes(
    recorded: Seq<(Seq<char>, Op, Seq<char>)>,
    answered: Seq<Seq<char>>,
    operations: Seq<Committed>,
)
    ensures
        owed(recorded, answered, operations) == recorded.filter(
            |r: (Seq<char>, Op, Seq<char>)|
                !answered.contains(r.0) && exists|i: int|
                    0 <= i < operations.len() && answers(#[trigger] operations[i], r),
        ).map_values(|r: (Seq<char>, Op, Seq<char>)| (r.0, answer_text(r.1, r.2))),
    decreases recorded.len(),
{
    reveal(Seq::filter);
    let keep = |r: (Seq<char>, Op, Seq<char>)|
        !answered.contains(r.0) && exists|i: int|
            0 <= i < operations.len() && answers(#[trigger] operations[i], r);
    let said = |r: (Seq<char>, Op, Seq<char>)| (r.0, answer_text(r.1, r.2));
    if recorded.len() > 0 {
        law_what_a_commit_owes(recorded.drop_last(), answered, operations);
        let before = recorded.drop_last().filter(keep);
        assert(before.push(recorded.last()).map_values(said) =~= before.map_values(said).push(
            said(recorded.last()),
        ));
        assert(keep(recorded.last()) <==> !answered.contains(recorded.last().0) && some_answers(
            operations,
            recorded.last(),
        ));
    } else {
        assert(recorded.filter(keep).map_values(said) =~= Seq::empty());
    }
}

/// An entry of the record is a request where it stands under a correlation and names an op
/// and a node, and nothing else; and it reads as just those.
pub proof fn law_which_entries_are_requests(name: String, fields: Vec<(String, Json)>)
    requires
        is_request((name, Json::Object(fields))),
    ensures
        is_correlation(name@),
        forall|i: int|
            0 <= i < fields@.len() ==> (#[trigger] fields@[i]).0@ == "op"@ || fields@[i].0@
                == "node"@,
        crate::json::text_in(crate::json::field_in(fields@, "op"@)) == Some("retry"@),
        crate::json::field_in(fields@, "node"@) is Some,
        crate::json::text_in(crate::json::field_in(fields@, "node"@)) == Some(
            request_in((name, Json::Object(fields))).2,
        ),
        request_in((name, Json::Object(fields))).0 == name@,
        request_in((name, Json::Object(fields))).1 == Op::Retry,
{
    let keys = request_keys();
    assert(record::key_holds(keys[0], fields@));
    assert(record::key_holds(keys[1], fields@));
    assert forall|i: int| 0 <= i < fields@.len() implies (#[trigger] fields@[i]).0@ == "op"@
        || fields@[i].0@ == "node"@ by {
        assert(record::is_key(keys, fields@[i].0@));
        let k = choose|k: int| 0 <= k < keys.len() && #[trigger] keys[k].name@ == fields@[i].0@;
        assert(k == 0 || k == 1);
    }
}

/// A reply asks for an edit where one of its commands is that op, on that node.
pub proof fn law_which_replies_ask_for_an_edit(commands: Seq<Asked>, node: Seq<char>)
    ensures
        some_asks(commands, Op::Retry, node) <==> exists|i: int|
            0 <= i < commands.len() && (#[trigger] commands[i]).op@ == "retry"@
                && commands[i].target is Some && commands[i].target->0@ == node,
{
}

proof fn lemma_requests_in_order(fields: Seq<(String, Json)>)
    ensures
        forall|i: int, j: int|
            0 <= i < j < requests_in(fields).len() ==> precedes(
                (#[trigger] requests_in(fields)[i]).0,
                (#[trigger] requests_in(fields)[j]).0,
            ),
    decreases fields.len(),
{
    if fields.len() > 0 {
        lemma_requests_in_order(fields.drop_last());
        lemma_request_recorded(requests_in(fields.drop_last()), request_in(fields.last()));
    }
}

/// Every entry of the record is found again under its correlation, and the entries stand in
/// the order of their correlations.
pub proof fn law_every_recorded_request_is_found(
    fields: Seq<(String, Json)>,
    entry: (String, Json),
    other: Seq<char>,
)
    ensures
        request_of(requests_in(fields.push(entry)), entry.0@, 0) == Some(
            (request_in(entry).1, request_in(entry).2),
        ),
        other != entry.0@ ==> request_of(requests_in(fields.push(entry)), other, 0) == request_of(
            requests_in(fields),
            other,
            0,
        ),
        forall|i: int, j: int|
            0 <= i < j < requests_in(fields).len() ==> precedes(
                (#[trigger] requests_in(fields)[i]).0,
                (#[trigger] requests_in(fields)[j]).0,
            ),
{
    lemma_requests_in_order(fields);
    assert(fields.push(entry).drop_last() =~= fields);
    law_a_request_is_found_under_its_correlation(requests_in(fields), request_in(entry), other);
}

} // verus!
