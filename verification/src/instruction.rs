//! The instruction a consumer is given about the release it depends on.
//!
//! How a dependent moves from a git pin to a released version is a fact about the
//! producing repository, so the producer declares it once, as a template, and it is
//! rendered wherever a consumer is told about that release. Every variable a
//! template may name is a cell of the row it is rendered for.
use vstd::prelude::*;

use crate::filter::{debug_text, debugged};
use crate::text;
use crate::text::{blank, dec, is_control, join, lines, texts, trim, trim_end};

verus! {

/// What a consumer is told when the producer declares no template of its own.
pub const DEFAULT_INSTRUCTION: &'static str = "Move from the git pin to that released version.";

/// The variables a template may name, at either render site.
pub const VARIABLES: [&'static str; 6] = [
    "dependency",
    "repository",
    "branch",
    "commit",
    "target",
    "version",
];

/// The variables a template may name, for the refusal that names them.
pub const VARIABLES_LISTED: &'static str =
    "`dependency`, `repository`, `branch`, `commit`, `target`, `version`";

/// How long a declared instruction may be, in bytes.
pub const MAX_INSTRUCTION: usize = 1000;

/// What a note says of itself, because a note delivered into a running turn is
/// delivered with nothing around it to frame it.
pub const OBSERVED_STATE_FRAMING: &'static str =
    "This reports observed state and adds no acceptance criteria.";

/// Which way round one guard reads.
#[derive(Debug, Clone, Copy, PartialEq, Eq, Structural)]
pub enum Guard {
    /// `{{#name}}`: render this where the variable has a value.
    WhenSet,
    /// `{{^name}}`: render this where it does not.
    WhenUnset,
}

impl Guard {
    /// The guard holds for a variable worth this.
    pub open spec fn allows(self, value: Seq<char>) -> bool {
        match self {
            Guard::WhenSet => value.len() > 0,
            Guard::WhenUnset => value.len() == 0,
        }
    }

    /// Whether this guard holds for a variable worth `value`.
    pub fn holds(self, value: &str) -> (r: bool)
        ensures
            r == self.allows(value@),
    {
        match self {
            Guard::WhenSet => value.unicode_len() > 0,
            Guard::WhenUnset => value.unicode_len() == 0,
        }
    }
}

/// One piece of a template.
pub ghost enum Piece {
    /// Text, rendered as itself.
    Literal(Seq<char>),
    /// `{{name}}`, rendered as that variable's value.
    Variable(Seq<char>),
    /// A guarded section: what renders when the guard holds.
    Section { name: Seq<char>, guard: Guard, inner: Seq<Piece> },
}

/// One dependency's row: what the run observed of it, and the instruction its
/// producer declared. A cell the run could not observe is empty.
#[verifier::ext_equal]
pub ghost struct ReferenceModel {
    pub dependency: Seq<char>,
    pub repository: Seq<char>,
    pub branch: Seq<char>,
    pub commit: Seq<char>,
    pub release_target: Seq<char>,
    pub version: Seq<char>,
    pub instruction: Seq<char>,
}

/// A variable a template may name.
pub open spec fn is_variable(name: Seq<char>) -> bool {
    exists|i: int| 0 <= i < VARIABLES@.len() && #[trigger] VARIABLES@[i]@ == name
}

/// What one variable is worth for one dependency.
pub open spec fn worth(of: ReferenceModel, name: Seq<char>) -> Seq<char> {
    if name == "dependency"@ {
        of.dependency
    } else if name == "repository"@ {
        of.repository
    } else if name == "branch"@ {
        of.branch
    } else if name == "commit"@ {
        of.commit
    } else if name == "target"@ {
        of.release_target
    } else {
        of.version
    }
}

/// What one piece renders to.
pub open spec fn render_piece(piece: Piece, of: ReferenceModel) -> Seq<char>
    decreases piece, 0nat,
{
    match piece {
        Piece::Literal(text) => text,
        Piece::Variable(name) => worth(of, name),
        Piece::Section { name, guard, inner } => if guard.allows(worth(of, name)) {
            render_pieces(inner, of, inner.len())
        } else {
            Seq::empty()
        },
    }
}

/// What the first `n` pieces render to, in order.
pub open spec fn render_pieces(pieces: Seq<Piece>, of: ReferenceModel, n: nat) -> Seq<char>
    decreases pieces, n,
{
    if n == 0 || n > pieces.len() {
        Seq::empty()
    } else {
        render_pieces(pieces, of, (n - 1) as nat) + render_piece(pieces[n - 1], of)
    }
}

/// Where a character first stands twice in a row, from a position on.
pub open spec fn doubled(s: Seq<char>, c: char, from: int) -> Option<int>
    decreases s.len() - from,
{
    if from < 0 || from + 1 >= s.len() {
        None
    } else if s[from] == c && s[from + 1] == c {
        Some(from)
    } else {
        doubled(s, c, from + 1)
    }
}

/// A template part read: what is complete, and the sections still open, innermost
/// last.
#[verifier::ext_equal]
pub ghost struct Reading {
    pub done: Seq<Piece>,
    pub open: Seq<(Seq<char>, Guard, Seq<Piece>)>,
}

/// A piece added to whatever is being read: the innermost open section, or the
/// template.
pub open spec fn with_piece(reading: Reading, piece: Piece) -> Reading {
    if reading.open.len() > 0 {
        let (name, guard, inner) = reading.open.last();
        Reading {
            open: reading.open.drop_last().push((name, guard, inner.push(piece))),
            ..reading
        }
    } else {
        Reading { done: reading.done.push(piece), ..reading }
    }
}

/// The text before a tag added, where there is any.
pub open spec fn with_literal(reading: Reading, literal: Seq<char>) -> Reading {
    if literal.len() == 0 {
        reading
    } else {
        with_piece(reading, Piece::Literal(literal))
    }
}

/// What a name no variable answers to is refused with.
pub open spec fn unknown_variable(name: Seq<char>) -> Seq<char> {
    "a release instruction names no variable `"@ + name + "`; it may name "@ + VARIABLES_LISTED@
}

/// What follows the first character of a tag.
pub open spec fn after_mark(tag: Seq<char>) -> Seq<char> {
    trim(tag.subrange(1, tag.len() as int))
}

/// A template after one more tag is read, or why it is not one.
pub open spec fn with_tag(reading: Reading, tag: Seq<char>) -> Result<Reading, Seq<char>> {
    let marked = tag.len() > 0 && (tag[0] == '/' || tag[0] == '#' || tag[0] == '^');
    let name = if marked {
        after_mark(tag)
    } else {
        tag
    };
    if !is_variable(name) {
        Err(unknown_variable(name))
    } else if !marked {
        Ok(with_piece(reading, Piece::Variable(name)))
    } else if tag[0] == '#' {
        Ok(
            Reading {
                open: reading.open.push((name, Guard::WhenSet, Seq::empty())),
                ..reading
            },
        )
    } else if tag[0] == '^' {
        Ok(
            Reading {
                open: reading.open.push((name, Guard::WhenUnset, Seq::empty())),
                ..reading
            },
        )
    } else if reading.open.len() == 0 {
        Err("a release instruction closes `{{/"@ + name + "}}`, which it never opened"@)
    } else if reading.open.last().0 != name {
        Err(
            "a release instruction closes `{{/"@ + name + "}}` where `"@ + reading.open.last().0
                + "` is open"@,
        )
    } else {
        let (opened, guard, inner) = reading.open.last();
        Ok(
            with_piece(
                Reading { open: reading.open.drop_last(), ..reading },
                Piece::Section { name: opened, guard, inner },
            ),
        )
    }
}

/// What is read of a template from a position to its end, or why it is not one.
pub open spec fn read_from(s: Seq<char>, from: int, reading: Reading) -> Result<
    Reading,
    Seq<char>,
>
    decreases s.len() - from,
{
    if from < 0 || from > s.len() {
        Ok(reading)
    } else {
        match doubled(s, '{', from) {
            None => Ok(with_literal(reading, s.subrange(from, s.len() as int))),
            Some(at) => match doubled(s, '}', at + 2) {
                None => Err("a release instruction opens `{{` and never closes it"@),
                Some(end) => if at < from || end < at + 2 || end + 2 > s.len() {
                    Ok(reading)
                } else {
                    match with_tag(
                        with_literal(reading, s.subrange(from, at)),
                        trim(s.subrange(at + 2, end)),
                    ) {
                        Err(why) => Err(why),
                        Ok(next) => read_from(s, end + 2, next),
                    }
                },
            },
        }
    }
}

/// A template's pieces, or why it is not one: a name no variable answers to is
/// refused by that name, as is a section left open.
pub open spec fn parsed(source: Seq<char>) -> Result<Seq<Piece>, Seq<char>> {
    match read_from(source, 0, Reading { done: Seq::empty(), open: Seq::empty() }) {
        Err(why) => Err(why),
        Ok(reading) => if reading.open.len() > 0 {
            Err(
                "a release instruction opens `{{#"@ + reading.open.last().0
                    + "}}` and never closes it"@,
            )
        } else {
            Ok(reading.done)
        },
    }
}

/// What a template renders to for one dependency: its pieces in order, without the
/// white space that a guard that took the other branch leaves around them.
pub open spec fn rendering(source: Seq<char>, of: ReferenceModel) -> Seq<char> {
    let pieces = parsed(source)->Ok_0;
    trim(render_pieces(pieces, of, pieces.len()))
}

/// One line opens a section where it is rendered: a heading, or the underline that
/// makes a heading of the line above it.
pub open spec fn opens_section(line: Seq<char>) -> bool {
    let line = trim(line);
    ||| line.len() > 0 && line[0] == '#'
    ||| line.len() >= 3 && forall|i: int| 0 <= i < line.len() ==> #[trigger] line[i] == '='
    ||| line.len() >= 3 && forall|i: int| 0 <= i < line.len() ==> #[trigger] line[i] == '-'
}

/// The first line that opens a section.
pub open spec fn section_line(lines: Seq<Seq<char>>, from: int) -> Option<Seq<char>>
    decreases lines.len() - from,
{
    if from < 0 || from >= lines.len() {
        None
    } else if opens_section(lines[from]) {
        Some(lines[from])
    } else {
        section_line(lines, from + 1)
    }
}

/// A character an instruction may not carry: any control character but the newline
/// that makes it a paragraph.
pub open spec fn unprintable(c: char) -> bool {
    is_control(c) && c != '\n'
}

/// The first character an instruction may not carry.
pub open spec fn unprintable_at(s: Seq<char>, from: int) -> Option<char>
    decreases s.len() - from,
{
    if from < 0 || from >= s.len() {
        None
    } else if unprintable(s[from]) {
        Some(s[from])
    } else {
        unprintable_at(s, from + 1)
    }
}

/// What Rust's `Debug` writes a character as.
pub uninterp spec fn debugged_char(c: char) -> Seq<char>;

/// `format!` of a character with its `Debug`.
#[verifier::external_body]
fn debug_char(c: char) -> (r: String)
    ensures
        r@ == debugged_char(c),
{
    format!("{c:?}")
}

/// What a text that should be a release instruction is refused with.
pub open spec fn template_fault(value: Seq<char>) -> Option<Seq<char>> {
    let bytes = vstd::utf8::encode_utf8(value).len();
    if blank(value) {
        Some("a release instruction cannot be blank"@)
    } else if bytes > MAX_INSTRUCTION {
        Some(
            "a release instruction is at most 1000 bytes, and this one is "@ + dec(bytes),
        )
    } else if unprintable_at(value, 0) is Some {
        Some(
            "a release instruction cannot carry the control character "@ + debugged_char(
                unprintable_at(value, 0)->0,
            ),
        )
    } else if section_line(lines(value), 0) is Some {
        Some(
            "a release instruction cannot open a section of its own, and the line "@ + debugged(
                section_line(lines(value), 0)->0,
            )
                + " does; it is rendered inside prose stating that it reports observed state and adds no acceptance criteria"@,
        )
    } else {
        match parsed(value) {
            Ok(_) => None,
            Err(why) => Some(why),
        }
    }
}

/// Whether one line would open a section where it is rendered.
#[verifier::loop_isolation(false)]
pub fn opens_a_section(line: &str) -> (r: bool)
    ensures
        r == opens_section(line@),
{
    let line = text::trimmed(line);
    let chars = text::chars_of(line.as_str());
    if chars.len() > 0 && chars[0] == '#' {
        return true;
    }
    if chars.len() < 3 {
        return false;
    }
    let mark: char = chars[0];
    if mark != '=' && mark != '-' {
        assert(line@[0] == mark);
        return false;
    }
    let mut i: usize = 0;
    while i < chars.len()
        invariant
            chars@ == line@,
            i <= chars@.len(),
            chars@.len() >= 3,
            mark == chars@[0],
            forall|j: int| 0 <= j < i ==> #[trigger] line@[j] == mark,
        decreases chars@.len() - i,
    {
        if chars[i] != mark {
            assert(line@[0] == mark && line@[i as int] != mark);
            return false;
        }
        i += 1;
    }
    true
}

enum Segment {
    Literal(String),
    Variable(String),
    Section { name: String, guard: Guard, inner: Vec<Segment> },
}

spec fn piece_of(segment: Segment) -> Piece
    decreases segment, 0nat,
{
    match segment {
        Segment::Literal(text) => Piece::Literal(text@),
        Segment::Variable(name) => Piece::Variable(name@),
        Segment::Section { name, guard, inner } => Piece::Section {
            name: name@,
            guard,
            inner: pieces_of(inner@, inner@.len()),
        },
    }
}

spec fn pieces_of(segments: Seq<Segment>, n: nat) -> Seq<Piece>
    decreases segments, n,
{
    if n == 0 || n > segments.len() {
        Seq::empty()
    } else {
        pieces_of(segments, (n - 1) as nat).push(piece_of(segments[n - 1]))
    }
}

spec fn pieces(segments: Seq<Segment>) -> Seq<Piece> {
    pieces_of(segments, segments.len())
}

proof fn lemma_pieces_len(segments: Seq<Segment>, n: nat)
    requires
        n <= segments.len(),
    ensures
        pieces_of(segments, n).len() == n,
        forall|i: int|
            0 <= i < n ==> #[trigger] pieces_of(segments, n)[i] == piece_of(segments[i]),
    decreases n,
{
    if n > 0 {
        lemma_pieces_len(segments, (n - 1) as nat);
    }
}

proof fn lemma_pieces_push(segments: Seq<Segment>, segment: Segment)
    ensures
        pieces(segments.push(segment)) == pieces(segments).push(piece_of(segment)),
{
    lemma_pieces_len(segments, segments.len());
    lemma_pieces_len(segments.push(segment), segments.len() + 1);
    assert(pieces(segments.push(segment)) =~= pieces(segments).push(piece_of(segment)));
}

type Section = (String, Guard, Vec<Segment>);

spec fn opened(open: Seq<Section>) -> Seq<(Seq<char>, Guard, Seq<Piece>)> {
    open.map_values(|s: Section| (s.0@, s.1, pieces(s.2@)))
}

/// What is being read of a template.
struct Parser {
    done: Vec<Segment>,
    open: Vec<Section>,
}

impl View for Parser {
    type V = Reading;

    closed spec fn view(&self) -> Reading {
        Reading { done: pieces(self.done@), open: opened(self.open@) }
    }
}

impl Parser {
    fn push(&mut self, segment: Segment)
        ensures
            final(self)@ == with_piece(old(self)@, piece_of(segment)),
    {
        match self.open.pop() {
            Some(section) => {
                let (name, guard, mut inner) = section;
                proof {
                    lemma_pieces_push(inner@, segment);
                }
                inner.push(segment);
                self.open.push((name, guard, inner));
                assert(self@.open =~= with_piece(old(self)@, piece_of(segment)).open);
            },
            None => {
                proof {
                    lemma_pieces_push(self.done@, segment);
                }
                self.done.push(segment);
                assert(self@.open =~= old(self)@.open);
            },
        }
    }

    fn flush(&mut self, literal: String)
        ensures
            final(self)@ == with_literal(old(self)@, literal@),
    {
        if literal.as_str().unicode_len() > 0 {
            self.push(Segment::Literal(literal));
        }
    }

    fn tag(&mut self, tag: &str) -> (r: Result<(), String>)
        ensures
            match r {
                Ok(()) => with_tag(old(self)@, tag@) == Ok::<Reading, Seq<char>>(final(self)@),
                Err(why) => with_tag(old(self)@, tag@) == Err::<Reading, Seq<char>>(why@),
            },
    {
        let chars = text::chars_of(tag);
        let mark: char = if chars.len() > 0 {
            chars[0]
        } else {
            ' '
        };
        let marked: bool = mark == '/' || mark == '#' || mark == '^';
        let name: String = if marked {
            let rest = text::string_of(&chars, 1, chars.len());
            text::trimmed(rest.as_str())
        } else {
            tag.to_owned()
        };
        if !is_known(name.as_str()) {
            let mut why: String = String::from_str("a release instruction names no variable `");
            why.append(name.as_str());
            why.append("`; it may name ");
            why.append(VARIABLES_LISTED);
            return Err(why);
        }
        if !marked {
            self.push(Segment::Variable(name));
            return Ok(());
        }
        if mark == '#' || mark == '^' {
            let guard: Guard = if mark == '#' {
                Guard::WhenSet
            } else {
                Guard::WhenUnset
            };
            let inner: Vec<Segment> = Vec::new();
            assert(pieces(inner@) =~= Seq::empty());
            let ghost spelled = name@;
            self.open.push((name, guard, inner));
            assert(self@.open =~= old(self)@.open.push((spelled, guard, Seq::empty())));
            return Ok(());
        }
        let ghost before = self@;
        match self.open.pop() {
            None => {
                let mut why: String = String::from_str("a release instruction closes `{{/");
                why.append(name.as_str());
                why.append("}}`, which it never opened");
                Err(why)
            },
            Some(section) => {
                let (open, guard, inner) = section;
                assert(before.open.last() == (open@, guard, pieces(inner@)));
                if !text::same(open.as_str(), name.as_str()) {
                    let mut why: String = String::from_str("a release instruction closes `{{/");
                    why.append(name.as_str());
                    why.append("}}` where `");
                    why.append(open.as_str());
                    why.append("` is open");
                    return Err(why);
                }
                assert(self@.open =~= before.open.drop_last());
                self.push(Segment::Section { name: open, guard, inner });
                Ok(())
            },
        }
    }
}

/// Whether a template may name this.
fn is_known(name: &str) -> (r: bool)
    ensures
        r == is_variable(name@),
{
    let known = VARIABLES;
    let mut i: usize = 0;
    while i < 6
        invariant
            known@ == VARIABLES@,
            known@.len() == 6,
            i <= 6,
            forall|j: int| 0 <= j < i ==> #[trigger] VARIABLES@[j]@ != name@,
        decreases 6 - i,
    {
        if text::same(known[i], name) {
            assert(VARIABLES@[i as int]@ == name@);
            return true;
        }
        i += 1;
    }
    false
}

fn find_doubled(chars: &Vec<char>, c: char, from: usize) -> (r: Option<usize>)
    requires
        from <= chars@.len(),
    ensures
        match r {
            Some(i) => doubled(chars@, c, from as int) == Some(i as int) && from <= i && i + 1
                < chars@.len(),
            None => doubled(chars@, c, from as int) is None,
        },
{
    let mut i: usize = from;
    while i < chars.len() && i + 1 < chars.len()
        invariant
            from <= i <= chars@.len(),
            doubled(chars@, c, from as int) == doubled(chars@, c, i as int),
        decreases chars@.len() - i,
    {
        if chars[i] == c && chars[i + 1] == c {
            return Some(i);
        }
        i += 1;
    }
    None
}

/// Read one template's segments, or say why it is not one.
fn parse(source: &str) -> (r: Result<Vec<Segment>, String>)
    ensures
        match r {
            Ok(segments) => parsed(source@) == Ok::<Seq<Piece>, Seq<char>>(pieces(segments@)),
            Err(why) => parsed(source@) == Err::<Seq<Piece>, Seq<char>>(why@),
        },
{
    let chars = text::chars_of(source);
    let mut reading = Parser { done: Vec::new(), open: Vec::new() };
    let mut from: usize = 0;
    let mut more: bool = true;
    let ghost start = Reading { done: Seq::empty(), open: Seq::empty() };
    assert(reading@ =~= start);
    while more
        invariant
            chars@ == source@,
            start == (Reading { done: Seq::empty(), open: Seq::empty() }),
            from <= chars@.len(),
            read_from(source@, 0, start) == (if more {
                read_from(source@, from as int, reading@)
            } else {
                Ok(reading@)
            }),
        decreases chars@.len() - from + (if more { 1int } else { 0 }),
    {
        match find_doubled(&chars, '{', from) {
            None => {
                let rest = text::string_of(&chars, from, chars.len());
                reading.flush(rest);
                more = false;
            },
            Some(at) => {
                match find_doubled(&chars, '}', at + 2) {
                    None => {
                        return Err("a release instruction opens `{{` and never closes it".to_owned());
                    },
                    Some(end) => {
                        let literal = text::string_of(&chars, from, at);
                        let inside = text::string_of(&chars, at + 2, end);
                        let tag = text::trimmed(inside.as_str());
                        reading.flush(literal);
                        match reading.tag(tag.as_str()) {
                            Ok(()) => {
                                from = end + 2;
                            },
                            Err(why) => {
                                return Err(why);
                            },
                        }
                    },
                }
            },
        }
    }
    if reading.open.len() > 0 {
        let last: usize = reading.open.len() - 1;
        assert(reading@.open.last().0 == reading.open@[last as int].0@);
        let mut why: String = String::from_str("a release instruction opens `{{#");
        why.append(reading.open[last].0.as_str());
        why.append("}}` and never closes it");
        return Err(why);
    }
    assert(reading@.open.len() == 0);
    Ok(reading.done)
}

/// One producer's declared instruction, checked where it is read.
pub struct InstructionTemplate {
    source: String,
    segments: Vec<Segment>,
}

impl View for InstructionTemplate {
    type V = Seq<char>;

    closed spec fn view(&self) -> Seq<char> {
        self.source@
    }
}

impl InstructionTemplate {
    #[verifier::type_invariant]
    spec fn well_formed(self) -> bool {
        parsed(self.source@) == Ok::<Seq<Piece>, Seq<char>>(pieces(self.segments@))
    }

    /// The instruction a producer declared, or why it is not one.
    pub fn try_from(value: String) -> (r: Result<Self, String>)
        ensures
            match r {
                Ok(template) => template_fault(value@) is None && template@ == value@,
                Err(why) => template_fault(value@) == Some(why@),
            },
    {
        if text::is_blank(value.as_str()) {
            return Err("a release instruction cannot be blank".to_owned());
        }
        let bytes = value.as_str().as_bytes();
        if bytes.len() > MAX_INSTRUCTION {
            let mut why: String = String::from_str(
                "a release instruction is at most 1000 bytes, and this one is ",
            );
            text::push_dec(&mut why, bytes.len() as u64);
            return Err(why);
        }
        if let Some(control) = first_unprintable(value.as_str()) {
            let spelled = debug_char(control);
            let mut why: String = String::from_str(
                "a release instruction cannot carry the control character ",
            );
            why.append(spelled.as_str());
            return Err(why);
        }
        if let Some(heading) = first_section(value.as_str()) {
            let spelled = debug_text(heading.as_str());
            let mut why: String = String::from_str(
                "a release instruction cannot open a section of its own, and the line ",
            );
            why.append(spelled.as_str());
            why.append(
                " does; it is rendered inside prose stating that it reports observed state and adds no acceptance criteria",
            );
            return Err(why);
        }
        match parse(value.as_str()) {
            Ok(segments) => Ok(InstructionTemplate { source: value, segments }),
            Err(why) => Err(why),
        }
    }

    /// This instruction, rendered for one dependency.
    pub fn render(&self, of: &CrossRepoReference) -> (r: String)
        ensures
            r@ == rendering(self@, of@),
    {
        proof {
            use_type_invariant(self);
        }
        let mut rendered: String = String::new();
        render_into(&self.segments, of, &mut rendered);
        assert(rendered@ =~= render_pieces(
            pieces(self.segments@),
            of@,
            pieces(self.segments@).len(),
        )) by {
            lemma_pieces_len(self.segments@, self.segments@.len());
        }
        text::trimmed(rendered.as_str())
    }

    /// The template as its producer declared it.
    pub fn as_str(&self) -> (r: &str)
        ensures
            r@ == self@,
    {
        self.source.as_str()
    }

    /// The template as its producer declared it.
    pub fn into_string(self) -> (r: String)
        ensures
            r@ == self@,
    {
        self.source
    }
}

fn first_unprintable(value: &str) -> (r: Option<char>)
    ensures
        r == unprintable_at(value@, 0),
{
    let chars = text::chars_of(value);
    let mut i: usize = 0;
    while i < chars.len()
        invariant
            chars@ == value@,
            i <= chars@.len(),
            unprintable_at(value@, 0) == unprintable_at(value@, i as int),
        decreases chars@.len() - i,
    {
        let c: char = chars[i];
        let n: u32 = c as u32;
        if (n <= 0x1f || (0x7f <= n && n <= 0x9f)) && c != '\n' {
            return Some(c);
        }
        i += 1;
    }
    None
}

fn first_section(value: &str) -> (r: Option<String>)
    ensures
        text::text_of(r) == section_line(lines(value@), 0),
{
    let list = text::lines_of(value);
    let ghost model = texts(list@);
    let mut i: usize = 0;
    while i < list.len()
        invariant
            model == texts(list@),
            model == lines(value@),
            i <= list@.len(),
            section_line(model, 0) == section_line(model, i as int),
        decreases list@.len() - i,
    {
        assert(model[i as int] == list@[i as int]@);
        if opens_a_section(list[i].as_str()) {
            return Some(list[i].clone());
        }
        i += 1;
    }
    None
}

/// One dependency's row: what the run observed of it, and the instruction its
/// producer declared.
pub struct CrossRepoReference {
    /// The dependency, as the plan names it.
    pub dependency: String,
    /// The producing repository.
    pub repository: String,
    /// The branch it landed on.
    pub branch: String,
    /// The commit it landed as.
    pub commit: String,
    /// What its release publishes.
    pub release_target: String,
    /// The released version, empty where none has been.
    pub version: String,
    /// What the producer tells a consumer to do with it.
    pub instruction: InstructionTemplate,
}

impl View for CrossRepoReference {
    type V = ReferenceModel;

    open spec fn view(&self) -> ReferenceModel {
        ReferenceModel {
            dependency: self.dependency@,
            repository: self.repository@,
            branch: self.branch@,
            commit: self.commit@,
            release_target: self.release_target@,
            version: self.version@,
            instruction: self.instruction@,
        }
    }
}

fn value_of<'a>(of: &'a CrossRepoReference, name: &str) -> (r: &'a str)
    ensures
        r@ == worth(of@, name@),
{
    if text::same(name, "dependency") {
        of.dependency.as_str()
    } else if text::same(name, "repository") {
        of.repository.as_str()
    } else if text::same(name, "branch") {
        of.branch.as_str()
    } else if text::same(name, "commit") {
        of.commit.as_str()
    } else if text::same(name, "target") {
        of.release_target.as_str()
    } else {
        of.version.as_str()
    }
}

fn render_into(segments: &Vec<Segment>, of: &CrossRepoReference, out: &mut String)
    ensures
        final(out)@ == old(out)@ + render_pieces(
            pieces(segments@),
            of@,
            pieces(segments@).len(),
        ),
    decreases segments,
{
    let ghost list = pieces(segments@);
    let ghost start = out@;
    proof {
        lemma_pieces_len(segments@, segments@.len());
    }
    let mut i: usize = 0;
    assert(out@ =~= start + render_pieces(list, of@, 0));
    while i < segments.len()
        invariant
            list == pieces(segments@),
            list.len() == segments@.len(),
            forall|j: int| 0 <= j < list.len() ==> #[trigger] list[j] == piece_of(segments@[j]),
            i <= segments@.len(),
            out@ == start + render_pieces(list, of@, i as nat),
        decreases segments@.len() - i,
    {
        let ghost before = out@;
        assert(list[i as int] == piece_of(segments@[i as int]));
        assert(decreases_to!(segments => segments@));
        assert(decreases_to!(segments@ => segments@[i as int]));
        match &segments[i] {
            Segment::Literal(text) => {
                out.append(text.as_str());
            },
            Segment::Variable(name) => {
                out.append(value_of(of, name.as_str()));
            },
            Segment::Section { name, guard, inner } => {
                let holds: bool = guard.holds(value_of(of, name.as_str()));
                if holds {
                    proof {
                        assert(decreases_to!(segments@[i as int] => segments@[i as int]->inner));
                        lemma_pieces_len(inner@, inner@.len());
                    }
                    render_into(inner, of, out);
                }
            },
        }
        assert(out@ =~= before + render_piece(list[i as int], of@));
        i += 1;
        assert(out@ =~= start + render_pieces(list, of@, i as nat));
    }
}

fn copy_segments(segments: &Vec<Segment>) -> (r: Vec<Segment>)
    ensures
        pieces(r@) == pieces(segments@),
    decreases segments,
{
    let mut out: Vec<Segment> = Vec::new();
    let mut i: usize = 0;
    while i < segments.len()
        invariant
            i <= segments@.len(),
            out@.len() == i,
            forall|j: int|
                0 <= j < i ==> piece_of(#[trigger] out@[j]) == piece_of(segments@[j]),
        decreases segments@.len() - i,
    {
        assert(decreases_to!(segments => segments@));
        assert(decreases_to!(segments@ => segments@[i as int]));
        let one: Segment = match &segments[i] {
            Segment::Literal(text) => Segment::Literal(text.clone()),
            Segment::Variable(name) => Segment::Variable(name.clone()),
            Segment::Section { name, guard, inner } => {
                assert(decreases_to!(segments@[i as int] => segments@[i as int]->inner));
                let copy = copy_segments(inner);
                Segment::Section { name: name.clone(), guard: *guard, inner: copy }
            },
        };
        assert(piece_of(one) == piece_of(segments@[i as int]));
        out.push(one);
        i += 1;
    }
    proof {
        lemma_pieces_len(out@, out@.len());
        lemma_pieces_len(segments@, segments@.len());
        assert(pieces(out@) =~= pieces(segments@));
    }
    out
}

impl Clone for InstructionTemplate {
    fn clone(&self) -> (r: Self)
        ensures
            r@ == self@,
    {
        proof {
            use_type_invariant(self);
        }
        let segments = copy_segments(&self.segments);
        InstructionTemplate { source: self.source.clone(), segments }
    }
}

/// A text without a tag is one literal.
proof fn lemma_untagged(source: Seq<char>)
    requires
        source.len() > 0,
        doubled(source, '{', 0) is None,
    ensures
        parsed(source) == Ok::<Seq<Piece>, Seq<char>>(seq![Piece::Literal(source)]),
{
    let start = Reading { done: Seq::empty(), open: Seq::empty() };
    assert(source.subrange(0, source.len() as int) =~= source);
    let read = with_literal(start, source);
    assert(read.done =~= seq![Piece::Literal(source)]);
    assert(read_from(source, 0, start) == Ok::<Reading, Seq<char>>(read));
}

proof fn lemma_no_brace(s: Seq<char>, from: int)
    requires
        0 <= from,
        forall|i: int| 0 <= i < s.len() ==> #[trigger] s[i] != '{',
    ensures
        doubled(s, '{', from) is None,
    decreases s.len() - from,
{
    if from + 1 < s.len() {
        lemma_no_brace(s, from + 1);
    }
}

impl Default for InstructionTemplate {
    fn default() -> (r: Self)
        ensures
            r@ == DEFAULT_INSTRUCTION@,
    {
        let mut segments: Vec<Segment> = Vec::new();
        segments.push(Segment::Literal(DEFAULT_INSTRUCTION.to_owned()));
        proof {
            reveal_strlit("Move from the git pin to that released version.");
            assert forall|i: int| 0 <= i < DEFAULT_INSTRUCTION@.len() implies #[trigger]
            DEFAULT_INSTRUCTION@[i] != '{' by {}
            lemma_no_brace(DEFAULT_INSTRUCTION@, 0);
            lemma_untagged(DEFAULT_INSTRUCTION@);
            lemma_pieces_len(segments@, 1);
            assert(pieces(segments@) =~= seq![Piece::Literal(DEFAULT_INSTRUCTION@)]);
        }
        InstructionTemplate { source: DEFAULT_INSTRUCTION.to_owned(), segments }
    }
}

/// What rows render to, in the order they are named: each instruction once, and one
/// that renders to nothing left out.
pub open spec fn told(of: Seq<ReferenceModel>) -> Seq<Seq<char>>
    decreases of.len(),
{
    if of.len() == 0 {
        Seq::empty()
    } else {
        let before = told(of.drop_last());
        let instruction = rendering(of.last().instruction, of.last());
        if instruction.len() == 0 || before.contains(instruction) {
            before
        } else {
            before.push(instruction)
        }
    }
}

/// The rows, as contracts speak of them.
pub open spec fn rows(of: Seq<CrossRepoReference>) -> Seq<ReferenceModel> {
    of.map_values(|r: CrossRepoReference| r@)
}

/// The instructions one set of dependencies renders to.
pub fn instructions(of: &Vec<CrossRepoReference>) -> (r: Vec<String>)
    ensures
        texts(r@) == told(rows(of@)),
{
    let ghost model = rows(of@);
    let mut rendered: Vec<String> = Vec::new();
    let mut i: usize = 0;
    assert(texts(rendered@) =~= told(model.take(0)));
    while i < of.len()
        invariant
            model == rows(of@),
            i <= of@.len(),
            texts(rendered@) == told(model.take(i as int)),
        decreases of@.len() - i,
    {
        let instruction = of[i].instruction.render(&of[i]);
        proof {
            assert(model.take(i + 1).drop_last() =~= model.take(i as int));
            assert(model.take(i + 1).last() == of@[i as int]@);
        }
        if instruction.as_str().unicode_len() > 0 && !told_already(&rendered, instruction.as_str()) {
            let ghost was = texts(rendered@);
            let ghost spelled = instruction@;
            rendered.push(instruction);
            assert(texts(rendered@) =~= was.push(spelled));
        }
        i += 1;
    }
    assert(model.take(model.len() as int) =~= model);
    rendered
}

fn told_already(list: &Vec<String>, instruction: &str) -> (r: bool)
    ensures
        r == texts(list@).contains(instruction@),
{
    let mut i: usize = 0;
    while i < list.len()
        invariant
            i <= list@.len(),
            forall|j: int| 0 <= j < i ==> #[trigger] texts(list@)[j] != instruction@,
        decreases list@.len() - i,
    {
        if text::same(list[i].as_str(), instruction) {
            assert(texts(list@)[i as int] == instruction@);
            return true;
        }
        i += 1;
    }
    false
}

/// The line a release that has arrived is reported on.
pub open spec fn arrival_line(of: ReferenceModel) -> Seq<char> {
    trim_end("- "@ + of.repository + " — "@ + of.release_target + " "@ + of.version)
}

/// The note a node is sent when the releases it was waiting on arrive.
pub open spec fn arrival_text(of: Seq<ReferenceModel>) -> Seq<char> {
    let note = "The releases this node was waiting on have arrived. "@ + OBSERVED_STATE_FRAMING@
        + "\n\n"@ + join(of.map_values(|r: ReferenceModel| arrival_line(r)), "\n"@);
    if told(of).len() == 0 {
        note
    } else {
        note + "\n\n"@ + join(told(of), "\n\n"@)
    }
}

/// The note a node is sent when the releases it was waiting on arrive.
///
/// It reports observed state and says what to do with it, and it says so itself.
/// It is a function of the rows alone, so a note replayed from the record is the
/// note that was sent.
pub fn arrival_note(arrived: &Vec<CrossRepoReference>) -> (r: String)
    ensures
        r@ == arrival_text(rows(arrived@)),
{
    let ghost model = rows(arrived@);
    let ghost written = model.map_values(|r: ReferenceModel| arrival_line(r));
    let mut arrivals: Vec<String> = Vec::new();
    let mut i: usize = 0;
    while i < arrived.len()
        invariant
            model == rows(arrived@),
            written == model.map_values(|r: ReferenceModel| arrival_line(r)),
            i <= arrived@.len(),
            texts(arrivals@) == written.take(i as int),
        decreases arrived@.len() - i,
    {
        let of = &arrived[i];
        let mut line: String = String::from_str("- ");
        line.append(of.repository.as_str());
        line.append(" — ");
        line.append(of.release_target.as_str());
        line.append(" ");
        line.append(of.version.as_str());
        let ghost was = texts(arrivals@);
        let kept = text::trimmed_end(line.as_str());
        let ghost spelled = kept@;
        arrivals.push(kept);
        assert(texts(arrivals@) =~= was.push(spelled));
        i += 1;
        assert(texts(arrivals@) =~= written.take(i as int));
    }
    assert(texts(arrivals@) =~= written);
    let listed = text::joined(&arrivals, "\n");
    let mut note: String = String::from_str("The releases this node was waiting on have arrived. ");
    note.append(OBSERVED_STATE_FRAMING);
    note.append("\n\n");
    note.append(listed.as_str());
    let said = instructions(arrived);
    assert(texts(said@).len() == said@.len());
    if said.len() > 0 {
        let all = text::joined(&said, "\n\n");
        note.append("\n\n");
        note.append(all.as_str());
    }
    note
}

/// A template that names no variable renders as itself, whatever it is rendered
/// for.
pub proof fn law_an_untagged_template_renders_as_itself(source: Seq<char>, of: ReferenceModel)
    requires
        source.len() > 0,
        doubled(source, '{', 0) is None,
    ensures
        rendering(source, of) == trim(source),
{
    lemma_untagged(source);
    let pieces = seq![Piece::Literal(source)];
    assert(render_pieces(pieces, of, 0) =~= Seq::<char>::empty());
    assert(render_piece(pieces[0], of) == source);
    assert(render_pieces(pieces, of, 1) =~= source);
}

/// Of a section and its inverse, exactly one renders: a template can say one thing
/// where a version is known and another where it is not.
pub proof fn law_a_guard_and_its_inverse_divide_every_value(value: Seq<char>)
    ensures
        Guard::WhenSet.allows(value) != Guard::WhenUnset.allows(value),
{
}

/// A worker is told each instruction once, and never a blank one.
pub proof fn law_each_instruction_is_told_once(of: Seq<ReferenceModel>)
    ensures
        told(of).no_duplicates(),
        forall|i: int| 0 <= i < told(of).len() ==> #[trigger] told(of)[i].len() > 0,
    decreases of.len(),
{
    if of.len() > 0 {
        law_each_instruction_is_told_once(of.drop_last());
    }
}

/// Every dependency's instruction that says anything is told.
pub proof fn law_every_instruction_is_told(of: Seq<ReferenceModel>, i: int)
    requires
        0 <= i < of.len(),
        rendering(of[i].instruction, of[i]).len() > 0,
    ensures
        told(of).contains(rendering(of[i].instruction, of[i])),
    decreases of.len(),
{
    let last = rendering(of.last().instruction, of.last());
    if i < of.len() - 1 {
        let earlier = rendering(of[i].instruction, of[i]);
        law_every_instruction_is_told(of.drop_last(), i);
        let before = told(of.drop_last());
        let at = choose|j: int| 0 <= j < before.len() && before[j] == earlier;
        assert(told(of)[at] == earlier);
    } else {
        let before = told(of.drop_last());
        if !before.contains(last) {
            assert(told(of)[before.len() as int] == last);
        }
    }
}

/// No line of an accepted instruction opens a section of its own: a producer cannot
/// add a bar to a node it does not own.
pub proof fn law_an_accepted_instruction_opens_no_section(value: Seq<char>, i: int)
    requires
        template_fault(value) is None,
        0 <= i < lines(value).len(),
    ensures
        !opens_section(lines(value)[i]),
{
    lemma_no_section(lines(value), 0, i);
}

proof fn lemma_no_section(lines: Seq<Seq<char>>, from: int, i: int)
    requires
        0 <= from <= i < lines.len(),
        section_line(lines, from) is None,
    ensures
        !opens_section(lines[i]),
    decreases i - from,
{
    if from < i {
        lemma_no_section(lines, from + 1, i);
    }
}

/// The six variables a template may name.
pub proof fn law_which_variables_a_template_may_name(name: Seq<char>)
    ensures
        is_variable(name) <==> name == "dependency"@ || name == "repository"@ || name == "branch"@
            || name == "commit"@ || name == "target"@ || name == "version"@,
        MAX_INSTRUCTION == 1000,
{
    let v = VARIABLES@;
    assert(v.len() == 6);
    assert(v[0]@ == "dependency"@ && v[1]@ == "repository"@ && v[2]@ == "branch"@ && v[3]@
        == "commit"@ && v[4]@ == "target"@ && v[5]@ == "version"@);
}

/// Each variable is worth the cell of its name.
pub proof fn law_what_a_variable_is_worth(of: ReferenceModel)
    ensures
        worth(of, "dependency"@) == of.dependency,
        worth(of, "repository"@) == of.repository,
        worth(of, "branch"@) == of.branch,
        worth(of, "commit"@) == of.commit,
        worth(of, "target"@) == of.release_target,
        worth(of, "version"@) == of.version,
{
    reveal_strlit("dependency");
    reveal_strlit("repository");
    reveal_strlit("branch");
    reveal_strlit("commit");
    reveal_strlit("target");
    reveal_strlit("version");
    assert("dependency"@.len() == 10 && "repository"@.len() == 10 && "branch"@.len() == 6);
    assert("commit"@.len() == 6 && "target"@.len() == 6 && "version"@.len() == 7);
    assert("dependency"@[0] == 'd' && "repository"@[0] == 'r' && "branch"@[0] == 'b');
    assert("commit"@[0] == 'c' && "target"@[0] == 't' && "version"@[0] == 'v');
}

/// A guard renders its section where the variable has a value, and the inverse guard where
/// it has none.
pub proof fn law_when_a_guard_renders(value: Seq<char>)
    ensures
        Guard::WhenSet.allows(value) <==> value.len() > 0,
        Guard::WhenUnset.allows(value) <==> value.len() == 0,
{
}

proof fn lemma_doubled_at(s: Seq<char>, c: char, from: int, at: int)
    requires
        0 <= from <= at,
        at + 1 < s.len(),
        s[at] == c,
        s[at + 1] == c,
        forall|i: int| from <= i < at ==> #[trigger] s[i] != c,
    ensures
        doubled(s, c, from) == Some(at),
    decreases at - from,
{
    if from < at {
        assert(s[from] != c);
        lemma_doubled_at(s, c, from + 1, at);
    }
}

proof fn lemma_none_doubled(s: Seq<char>, c: char, from: int)
    requires
        0 <= from,
        forall|i: int| from <= i < s.len() ==> #[trigger] s[i] != c,
    ensures
        doubled(s, c, from) is None,
    decreases s.len() - from,
{
    if from + 1 < s.len() {
        assert(s[from] != c);
        lemma_none_doubled(s, c, from + 1);
    }
}

proof fn lemma_names_are_plain(name: Seq<char>)
    requires
        is_variable(name),
    ensures
        name.len() > 0,
        trim(name) == name,
        !name.contains('{'),
        !name.contains('}'),
        name[0] != '/' && name[0] != '#' && name[0] != '^',
{
    law_which_variables_a_template_may_name(name);
    reveal_strlit("dependency");
    reveal_strlit("repository");
    reveal_strlit("branch");
    reveal_strlit("commit");
    reveal_strlit("target");
    reveal_strlit("version");
    assert forall|i: int| 0 <= i < name.len() implies 'a' <= #[trigger] name[i] <= 'z' by {}
    assert(name.len() > 0);
    lemma_letters_stay(name);
}

proof fn lemma_letters_stay(name: Seq<char>)
    requires
        name.len() > 0,
        forall|i: int| 0 <= i < name.len() ==> 'a' <= #[trigger] name[i] <= 'z',
    ensures
        trim(name) == name,
{
    assert(!text::is_white(name[0]));
    assert(!text::is_white(name.last()));
}

/// A tag that names a variable renders as what that variable is worth, where it stands.
pub proof fn law_a_tag_renders_as_its_value(
    before: Seq<char>,
    name: Seq<char>,
    behind: Seq<char>,
    of: ReferenceModel,
)
    requires
        is_variable(name),
        !before.contains('{'),
        !behind.contains('{'),
    ensures
        rendering(before + seq!['{', '{'] + name + seq!['}', '}'] + behind, of) == trim(
            before + worth(of, name) + behind,
        ),
{
    lemma_names_are_plain(name);
    let s = before + seq!['{', '{'] + name + seq!['}', '}'] + behind;
    let a = before.len() as int;
    let e = a + 2 + name.len();
    let start = Reading { done: Seq::empty(), open: Seq::empty() };
    assert forall|i: int| 0 <= i < a implies #[trigger] s[i] != '{' by {
        assert(before.contains(before[i]));
    }
    lemma_doubled_at(s, '{', 0, a);
    assert forall|i: int| a + 2 <= i < e implies #[trigger] s[i] != '}' by {
        assert(name.contains(name[i - a - 2]));
    }
    lemma_doubled_at(s, '}', a + 2, e);
    assert(s.subrange(a + 2, e) =~= name);
    assert(s.subrange(0, a) =~= before);
    let literal = with_literal(start, before);
    let next = with_piece(literal, Piece::Variable(name));
    assert(with_tag(literal, name) == Ok::<Reading, Seq<char>>(next));
    assert forall|i: int| e + 2 <= i < s.len() implies #[trigger] s[i] != '{' by {
        assert(behind.contains(behind[i - e - 2]));
    }
    lemma_none_doubled(s, '{', e + 2);
    assert(s.subrange(e + 2, s.len() as int) =~= behind);
    let end = with_literal(next, behind);
    assert(read_from(s, e + 2, next) == Ok::<Reading, Seq<char>>(end));
    assert(read_from(s, 0, start) == Ok::<Reading, Seq<char>>(end));
    assert(parsed(s) == Ok::<Seq<Piece>, Seq<char>>(end.done));
    lemma_render_literal(Seq::empty(), before, of);
    lemma_render_pushed(literal.done, Piece::Variable(name), of);
    lemma_render_literal(next.done, behind, of);
    assert(render_pieces(end.done, of, end.done.len()) =~= before + worth(of, name) + behind);
}

proof fn lemma_render_same(one: Seq<Piece>, two: Seq<Piece>, of: ReferenceModel, n: nat)
    requires
        n <= one.len(),
        n <= two.len(),
        forall|i: int| 0 <= i < n ==> one[i] == two[i],
    ensures
        render_pieces(one, of, n) == render_pieces(two, of, n),
    decreases n,
{
    if n > 0 {
        lemma_render_same(one, two, of, (n - 1) as nat);
    }
}

proof fn lemma_render_pushed(pieces: Seq<Piece>, piece: Piece, of: ReferenceModel)
    ensures
        render_pieces(pieces.push(piece), of, pieces.len() + 1) == render_pieces(
            pieces,
            of,
            pieces.len(),
        ) + render_piece(piece, of),
{
    lemma_render_same(pieces.push(piece), pieces, of, pieces.len());
}

proof fn lemma_render_literal(pieces: Seq<Piece>, literal: Seq<char>, of: ReferenceModel)
    ensures
        ({
            let all = with_literal(Reading { done: pieces, open: Seq::empty() }, literal).done;
            render_pieces(all, of, all.len()) == render_pieces(pieces, of, pieces.len()) + literal
        }),
{
    if literal.len() > 0 {
        lemma_render_pushed(pieces, Piece::Literal(literal), of);
    } else {
        assert(render_pieces(pieces, of, pieces.len()) + literal =~= render_pieces(
            pieces,
            of,
            pieces.len(),
        ));
    }
}

/// A section renders what it holds where its variable has a value, and an inverted one
/// where it has none; otherwise nothing of it renders.
pub proof fn law_a_section_renders_where_its_guard_holds(
    inverted: bool,
    name: Seq<char>,
    inner: Seq<char>,
    of: ReferenceModel,
)
    requires
        is_variable(name),
        !inner.contains('{'),
    ensures
        ({
            let mark = if inverted { '^' } else { '#' };
            let source = seq!['{', '{', mark] + name + seq!['}', '}'] + inner + seq!['{', '{', '/']
                + name + seq!['}', '}'];
            rendering(source, of) == (if (worth(of, name).len() > 0) != inverted {
                trim(inner)
            } else {
                Seq::empty()
            })
        }),
{
    lemma_names_are_plain(name);
    let mark = if inverted { '^' } else { '#' };
    let guard = if inverted { Guard::WhenUnset } else { Guard::WhenSet };
    let s = seq!['{', '{', mark] + name + seq!['}', '}'] + inner + seq!['{', '{', '/'] + name
        + seq!['}', '}'];
    let n = name.len() as int;
    let m = inner.len() as int;
    let e = 3 + n;
    let o = e + 2 + m;
    let c = o + 3 + n;
    let start = Reading { done: Seq::empty(), open: Seq::empty() };
    lemma_doubled_at(s, '{', 0, 0);
    assert forall|i: int| 2 <= i < e implies #[trigger] s[i] != '}' by {
        if i > 2 {
            assert(name.contains(name[i - 3]));
        }
    }
    lemma_doubled_at(s, '}', 2, e);
    let tag = seq![mark] + name;
    assert(s.subrange(2, e) =~= tag);
    lemma_marked(mark, name);
    assert(s.subrange(0, 0) =~= Seq::empty());
    let opened = Reading { done: Seq::empty(), open: seq![(name, guard, Seq::<Piece>::empty())] };
    assert(with_literal(start, s.subrange(0, 0)) == start);
    assert(start.open.push((name, guard, Seq::<Piece>::empty())) =~= opened.open);
    assert(with_tag(start, tag) == Ok::<Reading, Seq<char>>(opened));
    assert(read_from(s, 0, start) == read_from(s, e + 2, opened));
    assert forall|i: int| e + 2 <= i < o implies #[trigger] s[i] != '{' by {
        assert(inner.contains(inner[i - e - 2]));
    }
    assert(s[o] == '{' && s[o + 1] == '{' && s[o + 2] == '/');
    lemma_doubled_at(s, '{', e + 2, o);
    assert forall|i: int| o + 2 <= i < c implies #[trigger] s[i] != '}' by {
        if i > o + 2 {
            assert(s[i] == name[i - o - 3]);
            assert(name.contains(name[i - o - 3]));
        }
    }
    assert(s[c] == '}' && s[c + 1] == '}');
    lemma_doubled_at(s, '}', o + 2, c);
    let closing = seq!['/'] + name;
    assert(s.subrange(o + 2, c) =~= closing);
    lemma_marked('/', name);
    assert(s.subrange(e + 2, o) =~= inner);
    let held = with_literal(opened, inner);
    let none = Seq::<Piece>::empty();
    let inside = if inner.len() > 0 { none.push(Piece::Literal(inner)) } else { none };
    assert(held.open =~= seq![(name, guard, inside)]);
    assert(held.done =~= Seq::empty());
    assert(held.open.drop_last() =~= Seq::empty());
    let section = Piece::Section { name, guard, inner: inside };
    let closed = Reading { done: none.push(section), open: Seq::empty() };
    assert(with_tag(held, closing) == Ok::<Reading, Seq<char>>(closed));
    assert(read_from(s, e + 2, opened) == read_from(s, c + 2, closed));
    assert(s.len() == c + 2);
    lemma_none_doubled(s, '{', c + 2);
    assert(s.subrange(c + 2, s.len() as int) =~= Seq::empty());
    assert(read_from(s, c + 2, closed) == Ok::<Reading, Seq<char>>(closed));
    assert(parsed(s) == Ok::<Seq<Piece>, Seq<char>>(closed.done));
    lemma_render_pushed(none, section, of);
    lemma_render_literal(none, inner, of);
    assert(render_pieces(inside, of, inside.len()) =~= inner);
    let all = render_pieces(closed.done, of, closed.done.len());
    assert(all =~= render_piece(section, of));
    if (worth(of, name).len() > 0) == inverted {
        assert(all =~= Seq::empty());
        assert(trim(Seq::<char>::empty()) =~= Seq::empty());
    }
}

proof fn lemma_marked(mark: char, name: Seq<char>)
    requires
        is_variable(name),
        mark == '#' || mark == '^' || mark == '/',
    ensures
        trim(seq![mark] + name) == seq![mark] + name,
        after_mark(seq![mark] + name) == name,
        (seq![mark] + name)[0] == mark,
{
    lemma_names_are_plain(name);
    let tag = seq![mark] + name;
    law_which_variables_a_template_may_name(name);
    reveal_strlit("dependency");
    reveal_strlit("repository");
    reveal_strlit("branch");
    reveal_strlit("commit");
    reveal_strlit("target");
    reveal_strlit("version");
    assert(tag.last() == name.last());
    assert('a' <= name.last() <= 'z');
    assert(!text::is_white(tag[0]));
    assert(!text::is_white(tag.last()));
    assert(tag.subrange(1, tag.len() as int) =~= name);
}

/// A tag that names no variable is refused, and so is one that closes what is not open or
/// leaves open what it opened.
pub proof fn law_which_tags_are_refused(reading: Reading, tag: Seq<char>)
    ensures
        tag.len() > 0 && tag[0] != '/' && tag[0] != '#' && tag[0] != '^' ==> (with_tag(
            reading,
            tag,
        ) is Ok <==> is_variable(tag)),
        tag.len() > 0 && (tag[0] == '#' || tag[0] == '^') ==> (with_tag(reading, tag) is Ok
            <==> is_variable(trim(tag.skip(1)))),
        tag.len() > 0 && tag[0] == '/' ==> (with_tag(reading, tag) is Ok <==> is_variable(
            trim(tag.skip(1)),
        ) && reading.open.len() > 0 && reading.open.last().0 == trim(tag.skip(1))),
        tag.len() == 0 ==> with_tag(reading, tag) is Err,
{
    if tag.len() > 0 {
        assert(tag.skip(1) =~= tag.subrange(1, tag.len() as int));
    } else {
        law_which_variables_a_template_may_name(tag);
        reveal_strlit("dependency");
        reveal_strlit("repository");
        reveal_strlit("branch");
        reveal_strlit("commit");
        reveal_strlit("target");
        reveal_strlit("version");
    }
}

proof fn lemma_unprintable_at(s: Seq<char>, from: int)
    requires
        0 <= from <= s.len(),
    ensures
        unprintable_at(s, from) is None <==> forall|i: int|
            from <= i < s.len() ==> !unprintable(#[trigger] s[i]),
    decreases s.len() - from,
{
    if from < s.len() {
        lemma_unprintable_at(s, from + 1);
    }
}

proof fn lemma_section_line(lines: Seq<Seq<char>>, from: int)
    requires
        0 <= from <= lines.len(),
    ensures
        section_line(lines, from) is None <==> forall|i: int|
            from <= i < lines.len() ==> !opens_section(#[trigger] lines[i]),
    decreases lines.len() - from,
{
    if from < lines.len() {
        lemma_section_line(lines, from + 1);
    }
}

/// Which texts are release instructions: they say something, in at most a thousand bytes,
/// carry no control character but the newline, open no section, and parse.
pub proof fn law_which_texts_are_instructions(value: Seq<char>)
    ensures
        template_fault(value) is None <==> {
            &&& !blank(value)
            &&& vstd::utf8::encode_utf8(value).len() <= 1000
            &&& forall|i: int|
                0 <= i < value.len() ==> {
                    let c = #[trigger] value[i];
                    c == '\n' || !(c as u32 <= 0x1f) && !(0x7f <= c as u32 <= 0x9f)
                }
            &&& forall|i: int|
                0 <= i < lines(value).len() ==> !opens_section(#[trigger] lines(value)[i])
            &&& parsed(value) is Ok
        },
{
    lemma_unprintable_at(value, 0);
    lemma_section_line(lines(value), 0);
    assert forall|i: int| 0 <= i < value.len() implies (unprintable(#[trigger] value[i]) <==> !(
    value[i] == '\n' || !(value[i] as u32 <= 0x1f) && !(0x7f <= value[i] as u32 <= 0x9f))) by {}
}

/// Which lines open a section: a heading, and an underline of three or more of one mark.
pub proof fn law_which_lines_open_a_section(line: Seq<char>)
    ensures
        opens_section(line) <==> {
            let said = trim(line);
            ||| said.len() > 0 && said[0] == '#'
            ||| said.len() > 2 && said == Seq::new(said.len(), |i: int| '=')
            ||| said.len() > 2 && said == Seq::new(said.len(), |i: int| '-')
        },
{
    let said = trim(line);
    if forall|i: int| 0 <= i < said.len() ==> #[trigger] said[i] == '=' {
        assert(said =~= Seq::new(said.len(), |i: int| '='));
    }
    if forall|i: int| 0 <= i < said.len() ==> #[trigger] said[i] == '-' {
        assert(said =~= Seq::new(said.len(), |i: int| '-'));
    }
}

/// The note of an arrival frames itself, says every release on a line of its own in the
/// order they are named, and then what each producer tells its consumers to do.
pub proof fn law_what_an_arrival_says(of: Seq<ReferenceModel>)
    ensures
        ({
            let rows = of.map_values(
                |r: ReferenceModel|
                    trim_end("- "@ + r.repository + " — "@ + r.release_target + " "@ + r.version),
            );
            let opening = "The releases this node was waiting on have arrived. "@
                + "This reports observed state and adds no acceptance criteria."@ + "\n\n"@ + join(
                rows,
                "\n"@,
            );
            arrival_text(of) == (if told(of).len() == 0 {
                opening
            } else {
                opening + "\n\n"@ + join(told(of), "\n\n"@)
            })
        }),
{
    reveal_strlit("This reports observed state and adds no acceptance criteria.");
    let rows = of.map_values(
        |r: ReferenceModel|
            trim_end("- "@ + r.repository + " — "@ + r.release_target + " "@ + r.version),
    );
    assert(of.map_values(|r: ReferenceModel| arrival_line(r)) =~= rows);
}

/// A row is seen whole.
pub proof fn law_a_row_is_seen_whole(value: CrossRepoReference)
    ensures
        value@.dependency == value.dependency@,
        value@.repository == value.repository@,
        value@.branch == value.branch@,
        value@.commit == value.commit@,
        value@.release_target == value.release_target@,
        value@.version == value.version@,
        value@.instruction == value.instruction@,
{
}

} // verus!
