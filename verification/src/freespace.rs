//! Free space on the filesystems a host's runs live in, for the views that report what is
//! running and would otherwise say nothing about what it is running in.
//!
//! Two roots are measured, and a filesystem holding both is one line naming both, because
//! two lines for one device read as two answers about two resources.
use vstd::prelude::*;

use crate::text;
use crate::text::{dec, one_lined};

verus! {

/// The indentation the views give the lines inside a block.
pub const INDENT: &'static str = "  ";

/// What a line opens with, which is what a reader searches for.
pub const LEAD: &'static str = "free space:";

/// The label the runs root is named under.
pub const RUNS_ROOT: &'static str = "the runs root";

/// The label the workspaces root is named under.
pub const WORKSPACES: &'static str = "the lifecycle workspaces under";

/// How many bytes a gibibyte has.
pub const GIB: u64 = 1073741824;

/// The whole numbers below this are all numbers of double precision.
pub const EXACT_BELOW: u64 = 0x20_0000_0000_0000;

/// One filesystem, as measured for one root.
#[derive(Debug, PartialEq, Eq)]
pub struct Filesystem {
    /// What tells this filesystem from another.
    pub identity: String,
    /// The ancestor the root was measured at, when the root itself is not there.
    pub measured_at: Option<String>,
    /// Bytes an unprivileged writer may still use.
    pub free: u64,
    /// The filesystem's size, in bytes.
    pub total: u64,
}

/// A number divided and rounded to the nearest whole, a tie to the even one.
pub open spec fn rounded(n: nat, d: nat) -> nat {
    let whole = n / d;
    let twice = 2 * (n % d);
    if twice > d || (twice == d && whole % 2 == 1) {
        whole + 1
    } else {
        whole
    }
}

/// How far apart the numbers of double precision are at some bytes: `step` below `limit`,
/// and twice as far at each doubling of it.
pub open spec fn spacing(bytes: nat, limit: nat, step: nat) -> nat
    decreases
            if bytes < limit {
                0
            } else {
                bytes + 1 - limit
            },
{
    if limit == 0 || bytes < limit {
        step
    } else {
        spacing(bytes, limit * 2, step * 2)
    }
}

/// Some bytes as a number of double precision, which holds every whole number below
/// this limit: the nearest there is, and of two as near the one whose last digit is even.
pub open spec fn doubled(bytes: u64) -> nat {
    let step = spacing(bytes as nat, EXACT_BELOW as nat, 1);
    rounded(bytes as nat, step) * step
}

/// How many tenths of a gibibyte some bytes are, computed in double precision.
pub open spec fn tenths(bytes: u64) -> nat {
    rounded(doubled(bytes) * 10, GIB as nat)
}

/// Some bytes, as gibibytes with one decimal place.
pub open spec fn gib_text(bytes: u64) -> Seq<char> {
    dec(tenths(bytes) / 10) + "."@ + dec(tenths(bytes) % 10) + " GiB"@
}

/// The share that is free, in whole percent: a full filesystem reads zero, never a
/// rounded-up share.
pub open spec fn share(free: u64, total: u64) -> nat {
    if total == 0 {
        0
    } else {
        ((free * 100) / (total as int)) as nat
    }
}

/// What is free of what.
pub open spec fn reading_text(free: u64, total: u64) -> Seq<char> {
    gib_text(free) + " of "@ + gib_text(total) + " ("@ + dec(share(free, total)) + "% free)"@
}

fn round(n: u128, unit: u128) -> (r: u128)
    requires
        0 < unit <= 0x1_0000_0000_0000_0000,
        n <= 0xf_ffff_ffff_ffff_ffff_ffff,
    ensures
        r == rounded(n as nat, unit as nat),
        r <= n / unit + 1,
{
    let whole: u128 = n / unit;
    let rest: u128 = n % unit;
    let up: bool = rest * 2 > unit || (rest * 2 == unit && whole % 2 == 1);
    assert(whole <= n) by (nonlinear_arith)
        requires
            whole == n / unit,
            unit > 0,
    ;
    if up {
        whole + 1
    } else {
        whole
    }
}

/// Some bytes as a number of double precision.
fn double(bytes: u64) -> (r: u128)
    ensures
        r == doubled(bytes),
        r <= bytes + 4096,
{
    let mut limit: u128 = EXACT_BELOW as u128;
    let mut step: u128 = 1;
    while limit <= bytes as u128
        invariant
            spacing(bytes as nat, EXACT_BELOW as nat, 1) == spacing(
                bytes as nat,
                limit as nat,
                step as nat,
            ),
            limit == step * EXACT_BELOW,
            1 <= step <= 4096,
        decreases 0x2_0000_0000_0000_0000 - limit,
    {
        limit = limit * 2;
        step = step * 2;
    }
    let near: u128 = round(bytes as u128, step);
    assert(near * step <= bytes + step && near <= bytes + 1) by (nonlinear_arith)
        requires
            0 <= near <= bytes as int / step as int + 1,
            step >= 1,
    ;
    near * step
}

fn push_gib(out: &mut String, bytes: u64)
    ensures
        final(out)@ == old(out)@ + gib_text(bytes),
{
    let all: u64 = round(double(bytes) * 10, GIB as u128) as u64;
    let ghost before = out@;
    assert(all == tenths(bytes));
    text::push_dec(out, all / 10);
    out.append(".");
    text::push_dec(out, all % 10);
    out.append(" GiB");
    assert(out@ =~= before + gib_text(bytes));
}

impl Filesystem {
    /// What is free of this filesystem, in words.
    pub fn reading(&self) -> (r: String)
        ensures
            r@ == reading_text(self.free, self.total),
    {
        let share: u128 = if self.total == 0 {
            0
        } else {
            self.free as u128 * 100 / self.total as u128
        };
        let mut out: String = String::new();
        push_gib(&mut out, self.free);
        out.append(" of ");
        push_gib(&mut out, self.total);
        out.append(" (");
        push_share(&mut out, share);
        out.append("% free)");
        assert(out@ =~= reading_text(self.free, self.total));
        out
    }
}

fn push_share(out: &mut String, n: u128)
    ensures
        final(out)@ == old(out)@ + dec(n as nat),
    decreases n,
{
    if n <= u64::MAX as u128 {
        text::push_dec(out, n as u64);
    } else {
        let ghost before = out@;
        push_share(out, n / 10);
        text::push_dec(out, (n % 10) as u64);
        assert(dec((n % 10) as nat) =~= seq![text::digit((n % 10) as nat)]);
        assert(out@ =~= before + dec(n as nat));
    }
}

/// What a root is named as on a line.
pub open spec fn named(label: Seq<char>, path: Seq<char>) -> Seq<char> {
    label + " "@ + one_lined(path)
}

/// What a root is named as on a line, with the ancestor it was measured at.
pub open spec fn measured(label: Seq<char>, path: Seq<char>, at: Option<String>) -> Seq<char> {
    match at {
        Some(ancestor) => named(label, path) + " (measured at "@ + one_lined(ancestor@)
            + ", the nearest directory that exists)"@,
        None => named(label, path),
    }
}

/// One root, and the filesystem it sits on or why that cannot be said.
#[derive(Debug, PartialEq, Eq)]
pub struct Root {
    /// The label it is named under.
    pub label: String,
    /// Where it is.
    pub path: String,
    /// The filesystem, or why it cannot be read.
    pub measured: Result<Filesystem, String>,
}

/// The line that says a root could not be measured.
pub open spec fn unread_line(label: Seq<char>, path: Seq<char>, why: Seq<char>) -> Seq<char> {
    INDENT@ + LEAD@ + " could not be read for "@ + named(label, path) + ": "@ + one_lined(why)
        + ", so what is free there is unknown"@
}

/// The line a filesystem opens.
pub open spec fn opened_line(root: Root) -> Seq<char> {
    let filesystem = root.measured->Ok_0;
    INDENT@ + LEAD@ + " "@ + reading_text(filesystem.free, filesystem.total)
        + " on the filesystem holding "@ + measured(
        root.label@,
        root.path@,
        filesystem.measured_at,
    )
}

/// Lines as they are built, each with the identity of the filesystem it is about, where it
/// is about one.
pub open spec fn find_identity(
    lines: Seq<(Option<Seq<char>>, Seq<char>)>,
    identity: Seq<char>,
    from: int,
) -> Option<int>
    decreases lines.len() - from,
{
    if from < 0 || from >= lines.len() {
        None
    } else if lines[from].0 == Some(identity) {
        Some(from)
    } else {
        find_identity(lines, identity, from + 1)
    }
}

/// The lines with one more root on them: a filesystem that has a line gains the root's name,
/// and any other opens one.
pub open spec fn with_root(
    lines: Seq<(Option<Seq<char>>, Seq<char>)>,
    root: Root,
) -> Seq<(Option<Seq<char>>, Seq<char>)> {
    match root.measured {
        Err(why) => lines.push((None, unread_line(root.label@, root.path@, why@))),
        Ok(filesystem) => match find_identity(lines, filesystem.identity@, 0) {
            Some(i) => lines.update(
                i,
                (
                    lines[i].0,
                    lines[i].1 + " and "@ + measured(
                        root.label@,
                        root.path@,
                        filesystem.measured_at,
                    ),
                ),
            ),
            None => lines.push((Some(filesystem.identity@), opened_line(root))),
        },
    }
}

/// One line per distinct filesystem among some roots, in the order first named.
pub open spec fn built(roots: Seq<Root>) -> Seq<(Option<Seq<char>>, Seq<char>)>
    decreases roots.len(),
{
    if roots.len() == 0 {
        Seq::empty()
    } else {
        with_root(built(roots.drop_last()), roots.last())
    }
}

/// Lines as they are written, each with its terminator.
pub open spec fn written(lines: Seq<(Option<Seq<char>>, Seq<char>)>) -> Seq<char>
    decreases lines.len(),
{
    if lines.len() == 0 {
        Seq::empty()
    } else {
        written(lines.drop_last()) + (lines.last().1 + "\n"@)
    }
}

struct Line {
    identity: Option<String>,
    text: String,
}

spec fn line_models(lines: Seq<Line>) -> Seq<(Option<Seq<char>>, Seq<char>)> {
    lines.map_values(|l: Line| (text::text_of(l.identity), l.text@))
}

fn say_measured(root: &Root, at: &Option<String>) -> (r: String)
    ensures
        r@ == measured(root.label@, root.path@, *at),
{
    let path = text::one_line(root.path.as_str());
    let mut out: String = root.label.clone();
    out.append(" ");
    out.append(path.as_str());
    if let Some(ancestor) = at {
        let ancestor = text::one_line(ancestor.as_str());
        out.append(" (measured at ");
        out.append(ancestor.as_str());
        out.append(", the nearest directory that exists)");
    }
    out
}

fn say_unread(root: &Root, why: &str) -> (r: String)
    ensures
        r@ == unread_line(root.label@, root.path@, why@),
{
    let name = say_measured(root, &None);
    let why = text::one_line(why);
    let mut out: String = String::from_str(INDENT);
    out.append(LEAD);
    out.append(" could not be read for ");
    out.append(name.as_str());
    out.append(": ");
    out.append(why.as_str());
    out.append(", so what is free there is unknown");
    out
}

fn find(lines: &Vec<Line>, identity: &str) -> (r: Option<usize>)
    ensures
        match r {
            Some(i) => find_identity(line_models(lines@), identity@, 0) == Some(i as int) && i
                < lines@.len(),
            None => find_identity(line_models(lines@), identity@, 0) is None,
        },
{
    let ghost model = line_models(lines@);
    let mut i: usize = 0;
    while i < lines.len()
        invariant
            model == line_models(lines@),
            i <= lines@.len(),
            find_identity(model, identity@, 0) == find_identity(model, identity@, i as int),
        decreases lines@.len() - i,
    {
        assert(model[i as int].0 == text::text_of(lines@[i as int].identity));
        if text::is_text(&lines[i].identity, identity) {
            return Some(i);
        }
        i += 1;
    }
    None
}

fn add_root(lines: &mut Vec<Line>, root: &Root)
    ensures
        line_models(final(lines)@) == with_root(line_models(old(lines)@), *root),
{
    let ghost before = line_models(lines@);
    match &root.measured {
        Err(why) => {
            let text = say_unread(root, why.as_str());
            let ghost added = (None::<Seq<char>>, text@);
            lines.push(Line { identity: None, text });
            assert(line_models(lines@) =~= before.push(added));
        },
        Ok(filesystem) => {
            let name = say_measured(root, &filesystem.measured_at);
            match find(lines, filesystem.identity.as_str()) {
                Some(i) => {
                    let mut line = lines.remove(i);
                    assert(before[i as int] == (text::text_of(line.identity), line.text@));
                    line.text.append(" and ");
                    line.text.append(name.as_str());
                    let ghost made = (text::text_of(line.identity), line.text@);
                    lines.insert(i, line);
                    assert(line_models(lines@) =~= before.update(i as int, made));
                },
                None => {
                    let reading = filesystem.reading();
                    let mut text: String = String::from_str(INDENT);
                    text.append(LEAD);
                    text.append(" ");
                    text.append(reading.as_str());
                    text.append(" on the filesystem holding ");
                    text.append(name.as_str());
                    let ghost added = (Some(filesystem.identity@), text@);
                    lines.push(Line { identity: Some(filesystem.identity.clone()), text });
                    assert(line_models(lines@) =~= before.push(added));
                },
            }
        },
    }
}

/// One line per distinct filesystem among some roots, in the order first named.
pub fn lines_of(asked: &Vec<Root>) -> (r: String)
    ensures
        r@ == written(built(asked@)),
{
    let mut lines: Vec<Line> = Vec::new();
    let mut i: usize = 0;
    assert(line_models(lines@) =~= built(asked@.take(0)));
    while i < asked.len()
        invariant
            i <= asked@.len(),
            line_models(lines@) == built(asked@.take(i as int)),
        decreases asked@.len() - i,
    {
        proof {
            assert(asked@.take(i + 1).drop_last() =~= asked@.take(i as int));
            assert(asked@.take(i + 1).last() == asked@[i as int]);
        }
        add_root(&mut lines, &asked[i]);
        i += 1;
    }
    assert(asked@.take(asked@.len() as int) =~= asked@);
    let ghost model = line_models(lines@);
    let mut out: String = String::new();
    let mut j: usize = 0;
    assert(out@ =~= written(model.take(0)));
    while j < lines.len()
        invariant
            model == line_models(lines@),
            j <= lines@.len(),
            out@ == written(model.take(j as int)),
        decreases lines@.len() - j,
    {
        proof {
            assert(model.take(j + 1).drop_last() =~= model.take(j as int));
            assert(model.take(j + 1).last().1 == lines@[j as int].text@);
        }
        let mut line = lines[j].text.clone();
        line.append("\n");
        out.append(line.as_str());
        j += 1;
    }
    assert(model.take(model.len() as int) =~= model);
    out
}

/// What is said where the workspaces root could not be resolved.
pub open spec fn unresolved_line(why: Seq<char>) -> Seq<char> {
    INDENT@ + LEAD@
        + " could not be read for the lifecycle workspaces, because the linked onevcs could not resolve its state root: "@
        + one_lined(why) + ", so what is free there is unknown\n"@
}

/// The lines the views carry: one per distinct filesystem among the two roots, and — where
/// the workspaces root could not be resolved — one that says so. Silence is the one answer a
/// reading of the resource whose exhaustion stops everything may not give.
pub fn lines(asked: &Vec<Root>, unresolved: Option<&str>) -> (r: String)
    ensures
        r@ == (match unresolved {
            Some(why) => written(built(asked@)) + unresolved_line(why@),
            None => written(built(asked@)),
        }),
{
    let mut out = lines_of(asked);
    if let Some(why) = unresolved {
        let why = text::one_line(why);
        let mut line: String = String::from_str(INDENT);
        line.append(LEAD);
        line.append(
            " could not be read for the lifecycle workspaces, because the linked onevcs could not resolve its state root: ",
        );
        line.append(why.as_str());
        line.append(", so what is free there is unknown\n");
        out.append(line.as_str());
    }
    out
}

/// What the host says of one path.
#[derive(Debug, PartialEq, Eq)]
pub enum Measured {
    /// The filesystem it sits on.
    Read {
        /// What tells the filesystem from another.
        identity: String,
        /// Bytes an unprivileged writer may still use.
        free: u64,
        /// Its size, in bytes.
        total: u64,
        /// Whether the path is a directory.
        is_dir: bool,
    },
    /// There is no such path, and how the host says so.
    Missing(String),
    /// The host will not say, and why.
    Failed(String),
}

/// The search for the filesystem a root sits on.
#[derive(Debug, PartialEq, Eq)]
pub struct Holding {
    /// The root.
    pub path: String,
    /// What is measured: the root, or an ancestor of it.
    pub at: String,
}

/// What the search does next.
#[derive(Debug, PartialEq, Eq)]
pub enum Walk {
    /// It is over.
    Found(Filesystem),
    /// It is over, and why nothing was found.
    Refused(String),
    /// Measure the path's parent.
    Up,
}

impl Holding {
    /// A search that starts at the root itself.
    pub fn new(path: &str) -> (r: Holding)
        ensures
            r.path@ == path@,
            r.at@ == path@,
    {
        Holding { path: path.to_owned(), at: path.to_owned() }
    }

    /// What the search does next, given what the host says of the path it measured, and that
    /// path's parent where it has one.
    ///
    /// The walk up is the answer rather than a fallback: a root nothing has written yet
    /// still sits on a filesystem. A root relative to the working directory is measured
    /// there once nothing of its own is left.
    pub fn holding(&mut self, measured: &Measured, parent: Option<&str>) -> (r: Walk)
        ensures
            final(self).path == old(self).path,
            !(r is Up) ==> final(self).at == old(self).at,
            match *measured {
                Measured::Read { identity, free, total, is_dir } => {
                    if old(self).at@ != old(self).path@ && !is_dir {
                        r matches Walk::Refused(why) && why@ == old(self).at@ + ": not a directory"@
                    } else {
                        r matches Walk::Found(found) && found.identity@ == identity@ && found.free
                            == free && found.total == total && text::text_of(found.measured_at) == (
                        if old(self).at@ != old(self).path@ {
                            Some(old(self).at@)
                        } else {
                            None
                        })
                    }
                },
                Measured::Missing(error) => match parent {
                    None => r matches Walk::Refused(why) && why@ == old(self).path@ + ": "@ + error@,
                    Some(parent) => r is Up && final(self).at@ == (if parent@.len() == 0 {
                        "."@
                    } else {
                        parent@
                    }),
                },
                Measured::Failed(error) => r matches Walk::Refused(why) && why@ == old(self).at@
                    + ": "@ + error@,
            },
    {
        let moved: bool = !text::same(self.at.as_str(), self.path.as_str());
        match measured {
            Measured::Read { identity, free, total, is_dir } => {
                if moved && !*is_dir {
                    let mut why: String = self.at.clone();
                    why.append(": not a directory");
                    return Walk::Refused(why);
                }
                let measured_at: Option<String> = if moved {
                    Some(self.at.clone())
                } else {
                    None
                };
                Walk::Found(
                    Filesystem {
                        identity: identity.clone(),
                        measured_at,
                        free: *free,
                        total: *total,
                    },
                )
            },
            Measured::Missing(error) => match parent {
                None => {
                    let mut why: String = self.path.clone();
                    why.append(": ");
                    why.append(error.as_str());
                    Walk::Refused(why)
                },
                Some(parent) => {
                    self.at = if parent.unicode_len() == 0 {
                        ".".to_owned()
                    } else {
                        parent.to_owned()
                    };
                    Walk::Up
                },
            },
            Measured::Failed(error) => {
                let mut why: String = self.at.clone();
                why.append(": ");
                why.append(error.as_str());
                Walk::Refused(why)
            },
        }
    }
}

/// How many bytes some blocks have, bounded by what a byte count holds.
pub fn byte_count(blocks: u64, block: u64) -> (r: u64)
    ensures
        r == (if blocks * block <= u64::MAX {
            (blocks * block) as u64
        } else {
            u64::MAX
        }),
{
    match blocks.checked_mul(block) {
        Some(bytes) => bytes,
        None => u64::MAX,
    }
}

/// Two roots on one filesystem are one line.
pub proof fn law_one_filesystem_is_one_line(one: Root, two: Root)
    requires
        one.measured is Ok,
        two.measured is Ok,
        one.measured->Ok_0.identity@ == two.measured->Ok_0.identity@,
    ensures
        built(seq![one, two]).len() == 1,
{
    let both = seq![one, two];
    let first = seq![one];
    assert(both.drop_last() =~= first);
    assert(first.drop_last() =~= Seq::<Root>::empty());
    assert(built(Seq::<Root>::empty()) =~= Seq::empty());
    assert(built(first).len() == 1);
    assert(built(first)[0].0 == Some(one.measured->Ok_0.identity@));
}

/// A line holds a text.
pub open spec fn mentions(line: Seq<char>, said: Seq<char>) -> bool {
    exists|k: int|
        0 <= k && k + said.len() <= line.len() && #[trigger] line.subrange(k, k + said.len())
            == said
}

/// Some line names a root.
pub open spec fn is_said(lines: Seq<(Option<Seq<char>>, Seq<char>)>, root: Root) -> bool {
    exists|j: int|
        0 <= j < lines.len() && mentions((#[trigger] lines[j]).1, named(root.label@, root.path@))
}

proof fn lemma_mentions_between(a: Seq<char>, said: Seq<char>, b: Seq<char>)
    ensures
        mentions(a + said + b, said),
{
    let line = a + said + b;
    let k = a.len() as int;
    assert(line.subrange(k, k + said.len()) =~= said);
}

proof fn lemma_mentions_longer(line: Seq<char>, more: Seq<char>, said: Seq<char>)
    requires
        mentions(line, said),
    ensures
        mentions(line + more, said),
{
    let k = choose|k: int|
        0 <= k && k + said.len() <= line.len() && #[trigger] line.subrange(k, k + said.len())
            == said;
    assert((line + more).subrange(k, k + said.len()) =~= line.subrange(k, k + said.len()));
}

proof fn lemma_measured_names(label: Seq<char>, path: Seq<char>, at: Option<String>) -> (rest: Seq<
    char,
>)
    ensures
        measured(label, path, at) == named(label, path) + rest,
{
    match at {
        Some(ancestor) => {
            let rest = " (measured at "@ + one_lined(ancestor@)
                + ", the nearest directory that exists)"@;
            assert(measured(label, path, at) =~= named(label, path) + rest);
            rest
        },
        None => {
            assert(measured(label, path, at) =~= named(label, path) + Seq::<char>::empty());
            Seq::empty()
        },
    }
}

proof fn lemma_root_is_said(lines: Seq<(Option<Seq<char>>, Seq<char>)>, root: Root)
    ensures
        is_said(with_root(lines, root), root),
{
    let after = with_root(lines, root);
    let name = named(root.label@, root.path@);
    match root.measured {
        Err(why) => {
            let a = INDENT@ + LEAD@ + " could not be read for "@;
            let b = ": "@ + one_lined(why@) + ", so what is free there is unknown"@;
            lemma_mentions_between(a, name, b);
            assert(unread_line(root.label@, root.path@, why@) =~= a + name + b);
            assert(mentions(after[lines.len() as int].1, name));
        },
        Ok(filesystem) => {
            let rest = lemma_measured_names(root.label@, root.path@, filesystem.measured_at);
            lemma_found(lines, filesystem.identity@, 0);
            match find_identity(lines, filesystem.identity@, 0) {
                Some(i) => {
                    let a = lines[i].1 + " and "@;
                    lemma_mentions_between(a, name, rest);
                    assert(after[i].1 =~= a + name + rest);
                },
                None => {
                    let a = INDENT@ + LEAD@ + " "@ + reading_text(
                        filesystem.free,
                        filesystem.total,
                    ) + " on the filesystem holding "@;
                    lemma_mentions_between(a, name, rest);
                    assert(after[lines.len() as int].1 =~= a + name + rest);
                },
            }
        },
    }
}

proof fn lemma_still_said(lines: Seq<(Option<Seq<char>>, Seq<char>)>, root: Root, other: Root)
    requires
        is_said(lines, other),
    ensures
        is_said(with_root(lines, root), other),
{
    let after = with_root(lines, root);
    let name = named(other.label@, other.path@);
    let j = choose|j: int| 0 <= j < lines.len() && mentions((#[trigger] lines[j]).1, name);
    match root.measured {
        Err(_) => {
            assert(after[j] == lines[j]);
        },
        Ok(filesystem) => {
            lemma_found(lines, filesystem.identity@, 0);
            match find_identity(lines, filesystem.identity@, 0) {
                Some(i) => {
                    if i == j {
                        let more = " and "@ + measured(
                            root.label@,
                            root.path@,
                            filesystem.measured_at,
                        );
                        lemma_mentions_longer(lines[j].1, more, name);
                        assert(after[j].1 =~= lines[j].1 + more);
                    } else {
                        assert(after[j] == lines[j]);
                    }
                },
                None => {
                    assert(after[j] == lines[j]);
                },
            }
        },
    }
}

/// Every root is said: on a line of its own, or on the line of its filesystem.
pub proof fn law_no_root_is_passed_over(roots: Seq<Root>, i: int)
    requires
        0 <= i < roots.len(),
    ensures
        is_said(built(roots), roots[i]),
    decreases roots.len(),
{
    let shorter = roots.drop_last();
    if i < shorter.len() {
        law_no_root_is_passed_over(shorter, i);
        lemma_still_said(built(shorter), roots.last(), roots[i]);
    } else {
        lemma_root_is_said(built(shorter), roots.last());
    }
}

proof fn lemma_found(lines: Seq<(Option<Seq<char>>, Seq<char>)>, identity: Seq<char>, from: int)
    requires
        0 <= from,
    ensures
        find_identity(lines, identity, from) matches Some(i) ==> from <= i < lines.len(),
    decreases lines.len() - from,
{
    if from < lines.len() {
        lemma_found(lines, identity, from + 1);
    }
}

/// A number is rounded to the nearest whole number of units, and halfway between two to
/// the even one.
pub proof fn law_rounding_goes_to_the_nearest(n: nat, d: nat)
    requires
        d > 0,
    ensures
        2 * (rounded(n, d) * d) <= 2 * n + d,
        2 * n <= 2 * (rounded(n, d) * d) + d,
        (2 * (rounded(n, d) * d) == 2 * n + d || 2 * n == 2 * (rounded(n, d) * d) + d) ==> rounded(
            n,
            d,
        ) % 2 == 0,
{
    let whole = n / d;
    let left = n % d;
    assert(n == d * whole + left && left < d) by (nonlinear_arith)
        requires
            d > 0,
            whole == n / d,
            left == n % d,
    ;
    let r = rounded(n, d);
    if r == whole {
        assert(r * d == d * whole) by (nonlinear_arith)
            requires
                r == whole,
        ;
    } else {
        assert(r * d == d * whole + d) by (nonlinear_arith)
            requires
                r == whole + 1,
        ;
    }
}

/// Below two to the fifty-third every whole number is one of double precision.
pub proof fn law_small_counts_are_exact(bytes: u64)
    ensures
        bytes < 0x20_0000_0000_0000 ==> doubled(bytes) == bytes,
        EXACT_BELOW == 0x20_0000_0000_0000,
        GIB == 1024 * 1024 * 1024,
{
    if bytes < 0x20_0000_0000_0000 {
        assert(spacing(bytes as nat, EXACT_BELOW as nat, 1) == 1);
        assert(bytes as nat / 1 == bytes && bytes as nat % 1 == 0) by (nonlinear_arith);
    }
}

/// Whole gibibytes read as themselves.
pub proof fn law_whole_gibibytes_read_as_themselves(n: u64)
    requires
        n * 0x4000_0000 < 0x20_0000_0000_0000,
    ensures
        gib_text((n * 0x4000_0000) as u64) == dec(n as nat) + "."@ + dec(0) + " GiB"@,
{
    let bytes = (n * 0x4000_0000) as u64;
    law_small_counts_are_exact(bytes);
    let d = GIB as nat;
    let all = doubled(bytes) * 10;
    assert(all == (10 * n as nat) * d) by (nonlinear_arith)
        requires
            all == bytes as nat * 10,
            bytes as nat == n * 0x4000_0000,
            d == 0x4000_0000,
    ;
    assert(all / d == 10 * n && all % d == 0) by (nonlinear_arith)
        requires
            all == (10 * n as nat) * d,
            d == 0x4000_0000,
    ;
    assert(tenths(bytes) == 10 * n);
}

/// The share that is free is whole percent rounded down, and nothing of a filesystem
/// without a size.
pub proof fn law_the_share_is_rounded_down(free: u64, total: u64)
    ensures
        total == 0 ==> share(free, total) == 0,
        total > 0 ==> share(free, total) * total <= free * 100 && free * 100 < (share(free, total)
            + 1) * total,
        total > 0 && free < total ==> share(free, total) < 100,
        total > 0 && free == total ==> share(free, total) == 100,
{
    if total > 0 {
        let all = free * 100;
        let s = all / (total as int);
        assert(s * total <= all && all < (s + 1) * total && s >= 0) by (nonlinear_arith)
            requires
                total > 0,
                all >= 0,
                s == all / (total as int),
        ;
        if free < total {
            assert(s < 100) by (nonlinear_arith)
                requires
                    s * total <= all,
                    all < 100 * total,
                    total > 0,
            ;
        }
        if free == total {
            assert(s == 100) by (nonlinear_arith)
                requires
                    s * total <= all,
                    all < (s + 1) * total,
                    all == 100 * total,
                    total > 0,
            ;
        }
    }
}

proof fn lemma_find_identity(
    lines: Seq<(Option<Seq<char>>, Seq<char>)>,
    identity: Seq<char>,
    from: int,
)
    requires
        0 <= from <= lines.len(),
    ensures
        match find_identity(lines, identity, from) {
            Some(i) => from <= i < lines.len() && lines[i].0 == Some(identity),
            None => forall|i: int|
                from <= i < lines.len() ==> (#[trigger] lines[i]).0 != Some(identity),
        },
    decreases lines.len() - from,
{
    if from < lines.len() {
        lemma_find_identity(lines, identity, from + 1);
    }
}

/// However many roots there are, a filesystem has one line, each filesystem a root was
/// measured on has it, and a root that could not be measured has a line of its own.
pub proof fn law_each_filesystem_has_one_line(roots: Seq<Root>)
    ensures
        forall|i: int, j: int|
            0 <= i < j < built(roots).len() && (#[trigger] built(roots)[i]).0 is Some ==> built(
                roots,
            )[i].0 != (#[trigger] built(roots)[j]).0,
        forall|r: int|
            0 <= r < roots.len() && (#[trigger] roots[r]).measured is Ok ==> exists|i: int|
                0 <= i < built(roots).len() && (#[trigger] built(roots)[i]).0 == Some(
                    roots[r].measured->Ok_0.identity@,
                ),
        forall|r: int|
            0 <= r < roots.len() && (#[trigger] roots[r]).measured is Err ==> exists|i: int|
                0 <= i < built(roots).len() && (#[trigger] built(roots)[i]).0 is None,
    decreases roots.len(),
{
    if roots.len() > 0 {
        let rest = roots.drop_last();
        let last = roots.last();
        law_each_filesystem_has_one_line(rest);
        let before = built(rest);
        let all = built(roots);
        let found = if last.measured is Ok {
            find_identity(before, last.measured->Ok_0.identity@, 0)
        } else {
            None
        };
        if last.measured is Ok {
            lemma_find_identity(before, last.measured->Ok_0.identity@, 0);
        }
        assert forall|k: int| 0 <= k < before.len() implies (#[trigger] all[k]).0 == before[k].0 by {}
        assert forall|i: int, j: int|
            0 <= i < j < all.len() && (#[trigger] all[i]).0 is Some implies all[i].0 != (
        #[trigger] all[j]).0 by {
            assert(before[i].0 == all[i].0);
            if j < before.len() {
                assert(before[j].0 == all[j].0);
            }
        }
        if last.measured is Ok {
            if found is Some {
                assert(all[found->0].0 == Some(last.measured->Ok_0.identity@));
            } else {
                assert(all[before.len() as int].0 == Some(last.measured->Ok_0.identity@));
            }
        } else {
            assert(all[before.len() as int].0 is None);
        }
        assert forall|r: int|
            0 <= r < roots.len() && (#[trigger] roots[r]).measured is Ok implies exists|i: int|
            0 <= i < all.len() && (#[trigger] all[i]).0 == Some(
                roots[r].measured->Ok_0.identity@,
            ) by {
            if r < rest.len() {
                assert(rest[r] == roots[r]);
                let i = choose|i: int|
                    0 <= i < before.len() && (#[trigger] before[i]).0 == Some(
                        rest[r].measured->Ok_0.identity@,
                    );
                assert(all[i].0 == before[i].0);
            } else {
                assert(roots[r] == last);
            }
        }
        assert forall|r: int|
            0 <= r < roots.len() && (#[trigger] roots[r]).measured is Err implies exists|i: int|
            0 <= i < all.len() && (#[trigger] all[i]).0 is None by {
            if r < rest.len() {
                assert(rest[r] == roots[r]);
                let i = choose|i: int|
                    0 <= i < before.len() && (#[trigger] before[i]).0 is None;
                assert(all[i].0 == before[i].0);
            } else {
                assert(roots[r] == last);
            }
        }
    }
}

/// What a line says of a filesystem is what is free of it and what it holds.
pub proof fn law_a_line_says_what_is_free(root: Root)
    requires
        root.measured is Ok,
    ensures
        mentions(
            opened_line(root),
            reading_text(root.measured->Ok_0.free, root.measured->Ok_0.total),
        ),
        mentions(opened_line(root), named(root.label@, root.path@)),
        INDENT@ == "  "@,
        LEAD@ == "free space:"@,
{
    reveal_strlit("  ");
    reveal_strlit("free space:");
    let fs = root.measured->Ok_0;
    let reading = reading_text(fs.free, fs.total);
    let rest = lemma_measured_names(root.label@, root.path@, fs.measured_at);
    let line = opened_line(root);
    let head = INDENT@ + LEAD@ + " "@;
    let mid = " on the filesystem holding "@;
    assert(line =~= head + reading + (mid + measured(root.label@, root.path@, fs.measured_at)));
    lemma_mentions_between(head, reading, mid + measured(root.label@, root.path@, fs.measured_at));
    assert(line =~= (head + reading + mid) + named(root.label@, root.path@) + rest);
    lemma_mentions_between(head + reading + mid, named(root.label@, root.path@), rest);
}

/// What is written is every line in order, each with its terminator.
pub proof fn law_every_line_is_written(
    lines: Seq<(Option<Seq<char>>, Seq<char>)>,
    one: (Option<Seq<char>>, Seq<char>),
)
    ensures
        written(Seq::empty()).len() == 0,
        written(lines.push(one)) == written(lines) + (one.1 + "\n"@),
{
    assert(lines.push(one).drop_last() =~= lines);
}

/// A root that could not be measured is said to be unknown, by its name and with why.
pub proof fn law_an_unmeasured_root_is_said_to_be_unknown(
    label: Seq<char>,
    path: Seq<char>,
    why: Seq<char>,
)
    ensures
        mentions(unread_line(label, path, why), named(label, path)),
        mentions(unread_line(label, path, why), one_lined(why)),
        mentions(unread_line(label, path, why), ", so what is free there is unknown"@),
        mentions(unresolved_line(why), one_lined(why)),
{
    let a = INDENT@ + LEAD@ + " could not be read for "@;
    let end = ", so what is free there is unknown"@;
    let line = unread_line(label, path, why);
    assert(line =~= a + named(label, path) + (": "@ + one_lined(why) + end));
    lemma_mentions_between(a, named(label, path), ": "@ + one_lined(why) + end);
    let b = a + named(label, path) + ": "@;
    assert(line =~= b + one_lined(why) + end);
    lemma_mentions_between(b, one_lined(why), end);
    assert(line =~= (b + one_lined(why)) + end + Seq::empty());
    lemma_mentions_between(b + one_lined(why), end, Seq::empty());
    let c = INDENT@ + LEAD@
        + " could not be read for the lifecycle workspaces, because the linked onevcs could not resolve its state root: "@;
    let rest = ", so what is free there is unknown\n"@;
    assert(unresolved_line(why) =~= c + one_lined(why) + rest);
    lemma_mentions_between(c, one_lined(why), rest);
}

/// How far apart the numbers of double precision are doubles as often as the bytes reach
/// the limit, and no oftener: it is the step, doubled as often as it takes for the limit,
/// doubled with it, to be over the bytes.
pub proof fn law_the_spacing_doubles_until_the_size_fits(bytes: nat, limit: nat, step: nat)
    requires
        limit > 0,
    ensures
        exists|k: nat|
            spacing(bytes, limit, step) == step * #[trigger] vstd::arithmetic::power2::pow2(k)
                && bytes < limit * vstd::arithmetic::power2::pow2(k) && (k > 0 ==> limit
                * vstd::arithmetic::power2::pow2((k - 1) as nat) <= bytes),
    decreases
            if bytes < limit {
                0
            } else {
                bytes + 1 - limit
            },
{
    vstd::arithmetic::power2::lemma2_to64();
    if bytes < limit {
        assert(vstd::arithmetic::power2::pow2(0) == 1);
        assert(step * 1 == step && limit * 1 == limit);
    } else {
        law_the_spacing_doubles_until_the_size_fits(bytes, limit * 2, step * 2);
        let k = choose|k: nat|
            spacing(bytes, limit * 2, step * 2) == (step * 2)
                * #[trigger] vstd::arithmetic::power2::pow2(k) && bytes < (limit * 2)
                * vstd::arithmetic::power2::pow2(k) && (k > 0 ==> (limit * 2)
                * vstd::arithmetic::power2::pow2((k - 1) as nat) <= bytes);
        let p = vstd::arithmetic::power2::pow2(k);
        vstd::arithmetic::power2::lemma_pow2_unfold(k + 1);
        assert(vstd::arithmetic::power2::pow2(k + 1) == 2 * p);
        assert((step * 2) * p == step * (2 * p)) by (nonlinear_arith);
        assert((limit * 2) * p == limit * (2 * p)) by (nonlinear_arith);
        if k > 0 {
            let q = vstd::arithmetic::power2::pow2((k - 1) as nat);
            vstd::arithmetic::power2::lemma_pow2_unfold(k);
            assert(p == 2 * q);
            assert((limit * 2) * q == limit * (2 * q)) by (nonlinear_arith);
        } else {
            assert(p == 1);
            assert(limit * 1 == limit);
        }
        assert(((k + 1) - 1) as nat == k);
        assert(spacing(bytes, limit, step) == step * vstd::arithmetic::power2::pow2(k + 1));
    }
}

} // verus!
