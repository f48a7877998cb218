//! The run ledger: where a run's durable state lives, and who may write it.
//!
//! One directory per run under the runs root. The launch record says who owns the
//! run and how to relaunch it; the ownership lock is what makes the driving process
//! a single writer; the journal beside them is the merged event store.
use vstd::prelude::*;
use vstd::slice::slice_to_vec;
use vstd::utf8::encode_utf8;

use crate::error::Error;
use crate::filter::{are_filters, filters_of, honoured, Filters, FiltersModel};
use crate::json;
use crate::json::{field_in, Json};
use crate::record;
use crate::record::{Key, Kind};
use crate::text;
use crate::text::{blank, dec, precedes, texts};

verus! {

/// The environment variable that moves the runs root.
pub const RUNS_DIR_ENV: &'static str = "ONEPIPELINE_RUNS_DIR";

/// The runs root when the environment names none.
pub const DEFAULT_RUNS_DIR: &'static str = "runs";

/// What a launch nobody is known to have made is recorded under.
pub const UNKNOWN_LAUNCHER: &'static str = "unknown";

/// The file a run root records its launch in.
pub const LAUNCH_RECORD: &'static str = "launch.json";

/// The runs root a process reads and writes, given what its environment names.
pub fn runs_root(named: Option<&str>) -> (r: String)
    ensures
        r@ == (match named {
            Some(named) => if named@.len() > 0 {
                named@
            } else {
                DEFAULT_RUNS_DIR@
            },
            None => DEFAULT_RUNS_DIR@,
        }),
{
    match named {
        Some(named) => if named.unicode_len() > 0 {
            named.to_owned()
        } else {
            DEFAULT_RUNS_DIR.to_owned()
        },
        None => DEFAULT_RUNS_DIR.to_owned(),
    }
}

/// A name joined onto a directory: an absolute name stands for itself, and any
/// other is separated from the directory by one slash.
pub open spec fn joined(dir: Seq<char>, name: Seq<char>) -> Seq<char> {
    if dir.len() == 0 || (name.len() > 0 && name[0] == '/') {
        name
    } else if dir.last() == '/' {
        dir + name
    } else {
        dir + "/"@ + name
    }
}

/// Two relative names under one directory are two paths.
pub proof fn lemma_joined_injective(dir: Seq<char>, a: Seq<char>, b: Seq<char>)
    requires
        a.len() > 0 && a[0] != '/',
        b.len() > 0 && b[0] != '/',
        joined(dir, a) == joined(dir, b),
    ensures
        a == b,
{
    reveal_strlit("/");
    let prefix = if dir.len() == 0 {
        Seq::<char>::empty()
    } else if dir.last() == '/' {
        dir
    } else {
        dir + "/"@
    };
    assert(joined(dir, a) =~= prefix + a);
    assert(joined(dir, b) =~= prefix + b);
    assert(a =~= (prefix + a).skip(prefix.len() as int));
    assert(b =~= (prefix + b).skip(prefix.len() as int));
}

/// A name joined onto a directory.
pub fn join_path(dir: &str, name: &str) -> (r: String)
    ensures
        r@ == joined(dir@, name@),
{
    let d: usize = dir.unicode_len();
    let n: usize = name.unicode_len();
    if d == 0 || (n > 0 && name.get_char(0) == '/') {
        return name.to_owned();
    }
    let mut out: String = dir.to_owned();
    if dir.get_char(d - 1) != '/' {
        out.append("/");
    }
    out.append(name);
    out
}

/// A text holds a character.
pub open spec fn has_char(s: Seq<char>, c: char) -> bool {
    exists|i: int| 0 <= i < s.len() && #[trigger] s[i] == c
}

/// A run id names one directory under the runs root and nothing else: one segment,
/// and nothing that navigates.
pub open spec fn is_run_id(run: Seq<char>) -> bool {
    &&& run.len() > 0
    &&& run != "."@
    &&& run != ".."@
    &&& !has_char(run, '/')
    &&& !has_char(run, '\\')
}

/// Whether a run id names one directory under the runs root and nothing else.
///
/// A run id is external input on every verb that takes one, and it is joined onto
/// the runs root, so a separator, a `..`, or an absolute path would read and write
/// outside the ledger this process was pointed at.
pub fn is_valid_run_id(run: &str) -> (r: bool)
    ensures
        r == is_run_id(run@),
{
    if run.unicode_len() == 0 || text::same(run, ".") || text::same(run, "..") {
        return false;
    }
    !holds_char(run, '/') && !holds_char(run, '\\')
}

fn holds_char(s: &str, c: char) -> (r: bool)
    ensures
        r == has_char(s@, c),
{
    let chars = text::chars_of(s);
    let mut i: usize = 0;
    while i < chars.len()
        invariant
            chars@ == s@,
            i <= chars@.len(),
            forall|j: int| 0 <= j < i ==> #[trigger] s@[j] != c,
        decreases chars@.len() - i,
    {
        if chars[i] == c {
            assert(s@[i as int] == c);
            return true;
        }
        i += 1;
    }
    false
}

/// A character a path segment keeps.
pub open spec fn segment_char(c: char) -> bool {
    ||| 'a' <= c <= 'z'
    ||| 'A' <= c <= 'Z'
    ||| '0' <= c <= '9'
    ||| c == '-'
    ||| c == '_'
    ||| c == '.'
}

/// A name with everything a path segment does not keep replaced.
pub open spec fn mapped(name: Seq<char>) -> Seq<char> {
    name.map_values(|c: char| if segment_char(c) { c } else { '-' })
}

/// Nothing but dots, or nothing at all.
pub open spec fn only_dots(s: Seq<char>) -> bool {
    forall|i: int| 0 <= i < s.len() ==> #[trigger] s[i] == '.'
}

/// One producer-supplied name, as a single path segment: a name that is empty or
/// navigates gets one of its own.
pub open spec fn segment(name: Seq<char>) -> Seq<char> {
    if only_dots(mapped(name)) {
        "unnamed"@
    } else {
        mapped(name)
    }
}

/// One producer-supplied name, as a single path segment.
pub fn path_segment(name: &str) -> (r: String)
    ensures
        r@ == segment(name@),
{
    let chars = text::chars_of(name);
    let mut out: String = String::new();
    let mut dots: bool = true;
    let mut i: usize = 0;
    while i < chars.len()
        invariant
            chars@ == name@,
            i <= chars@.len(),
            out@ == mapped(name@).take(i as int),
            dots == only_dots(mapped(name@).take(i as int)),
        decreases chars@.len() - i,
    {
        let c: char = chars[i];
        let keep: bool = ('a' <= c && c <= 'z') || ('A' <= c && c <= 'Z') || ('0' <= c && c <= '9')
            || c == '-' || c == '_' || c == '.';
        let kept: char = if keep {
            c
        } else {
            '-'
        };
        out.push(kept);
        let ghost shorter = mapped(name@).take(i as int);
        let ghost longer = mapped(name@).take(i + 1);
        proof {
            assert(longer =~= shorter.push(kept));
            if only_dots(longer) {
                assert forall|j: int| 0 <= j < shorter.len() implies #[trigger] shorter[j]
                    == '.' by {
                    assert(longer[j] == shorter[j]);
                }
                assert(longer[i as int] == kept);
            }
        }
        if kept != '.' {
            dots = false;
        }
        i += 1;
    }
    assert(mapped(name@).take(name@.len() as int) =~= mapped(name@));
    if dots {
        return "unnamed".to_owned();
    }
    out
}

/// A segment built from a stranger's string is a name, never a path.
pub proof fn law_a_segment_is_a_name(name: Seq<char>)
    ensures
        is_run_id(segment(name)),
{
    let made = mapped(name);
    reveal_strlit("unnamed");
    reveal_strlit(".");
    reveal_strlit("..");
    if only_dots(made) {
        assert(segment(name)[0] == 'u');
    } else {
        if made == "."@ {
            assert(only_dots(made));
        }
        if made == ".."@ {
            assert(only_dots(made));
        }
    }
}

/// Joining a valid run id onto the runs root names a directory directly under it.
pub proof fn law_a_run_stays_under_its_root(root: Seq<char>, run: Seq<char>)
    requires
        is_run_id(run),
        root.len() > 0,
    ensures
        joined(root, run) == (if root.last() == '/' {
            root
        } else {
            root + "/"@
        }) + run,
        !has_char(run, '/'),
{
}

/// Where one run's durable state lives.
#[derive(Debug, PartialEq, Eq)]
pub struct RunPaths {
    /// The run id, as every command and view names it.
    pub run: String,
    /// The run's own directory.
    pub dir: String,
}

impl Clone for RunPaths {
    fn clone(&self) -> (r: Self)
        ensures
            r == *self,
    {
        RunPaths { run: self.run.clone(), dir: self.dir.clone() }
    }
}

impl RunPaths {
    /// The paths for `run` under the root a process's environment names.
    pub fn new(run: &str, named: Option<&str>) -> (r: Self)
        ensures
            r.run@ == run@,
            r.dir@ == joined(
                match named {
                    Some(named) => if named@.len() > 0 {
                        named@
                    } else {
                        DEFAULT_RUNS_DIR@
                    },
                    None => DEFAULT_RUNS_DIR@,
                },
                run@,
            ),
    {
        let root = runs_root(named);
        RunPaths::under(root.as_str(), run)
    }

    /// The paths for `run` under an explicit root.
    pub fn under(root: &str, run: &str) -> (r: Self)
        ensures
            r.run@ == run@,
            r.dir@ == joined(root@, run@),
    {
        RunPaths { run: run.to_owned(), dir: join_path(root, run) }
    }

    /// The directories a run has from the moment it exists.
    ///
    /// The dispatch registry among them: a reader that meets no registry at all
    /// cannot tell a run with nothing running from one whose record of what it is
    /// running has gone.
    pub fn create(&self) -> (r: Vec<String>)
        ensures
            texts(r@) == seq![joined(self.dir@, "channel"@), joined(self.dir@, "dispatches"@)],
    {
        let mut out: Vec<String> = Vec::new();
        out.push(self.channel_dir());
        out.push(self.dispatches());
        assert(texts(out@) =~= seq![
            joined(self.dir@, "channel"@),
            joined(self.dir@, "dispatches"@),
        ]);
        out
    }

    /// The merged event store.
    pub fn journal(&self) -> (r: String)
        ensures
            r@ == joined(self.dir@, "events.jsonl"@),
    {
        join_path(self.dir.as_str(), "events.jsonl")
    }

    /// The fragments an append cut out of the event store, one record each.
    pub fn torn_tails(&self) -> (r: String)
        ensures
            r@ == joined(self.dir@, "events.torn.jsonl"@),
    {
        join_path(self.dir.as_str(), "events.torn.jsonl")
    }

    /// The launch record: who owns the run, and what to relaunch it with.
    pub fn launch(&self) -> (r: String)
        ensures
            r@ == joined(self.dir@, LAUNCH_RECORD@),
    {
        join_path(self.dir.as_str(), LAUNCH_RECORD)
    }

    /// The plan the run was launched with.
    pub fn plan(&self) -> (r: String)
        ensures
            r@ == joined(self.dir@, "plan.json"@),
    {
        join_path(self.dir.as_str(), "plan.json")
    }

    /// The single-writer ownership lock.
    pub fn lock(&self) -> (r: String)
        ensures
            r@ == joined(self.dir@, "owner.lock"@),
    {
        join_path(self.dir.as_str(), "owner.lock")
    }

    /// Where a detached driver's own output goes.
    pub fn driver_log(&self) -> (r: String)
        ensures
            r@ == joined(self.dir@, "driver.log"@),
    {
        join_path(self.dir.as_str(), "driver.log")
    }

    /// The channel's transport state.
    pub fn channel_dir(&self) -> (r: String)
        ensures
            r@ == joined(self.dir@, "channel"@),
    {
        join_path(self.dir.as_str(), "channel")
    }

    /// Where this run keeps its own copy of the evidence its dispatches left.
    pub fn reports_dir(&self) -> (r: String)
        ensures
            r@ == joined(self.dir@, "reports"@),
    {
        join_path(self.dir.as_str(), "reports")
    }

    /// This run's copy of one relayed settlement's report, named from the producing
    /// stream and its sequence number.
    pub fn report_for(&self, stream: &str, seq: u64) -> (r: String)
        ensures
            r@ == joined(
                joined(self.dir@, "reports"@),
                segment(stream@) + "-"@ + dec(seq as nat) + ".json"@,
            ),
    {
        let mut name = path_segment(stream);
        name.append("-");
        text::push_dec(&mut name, seq);
        name.append(".json");
        let dir = self.reports_dir();
        join_path(dir.as_str(), name.as_str())
    }

    /// A file within the channel's transport state.
    pub fn channel(&self, name: &str) -> (r: String)
        ensures
            r@ == joined(joined(self.dir@, "channel"@), name@),
    {
        let dir = self.channel_dir();
        join_path(dir.as_str(), name)
    }

    /// The run's recorded result, rewritten whenever a driver closes out.
    pub fn result(&self) -> (r: String)
        ensures
            r@ == joined(self.dir@, "result.json"@),
    {
        join_path(self.dir.as_str(), "result.json")
    }

    /// The dispatch ownership registry: one record per process this run has work
    /// running in.
    pub fn dispatches(&self) -> (r: String)
        ensures
            r@ == joined(self.dir@, "dispatches"@),
    {
        join_path(self.dir.as_str(), "dispatches")
    }

    /// One dispatch's record, named by the process it runs in and the claim that
    /// wrote it.
    pub fn dispatch(&self, pid: u32, claim: u64) -> (r: String)
        ensures
            r@ == dispatch_path(self.dir@, pid, claim),
    {
        let mut name = text::dec_text(pid as u64);
        name.append("-");
        text::push_dec(&mut name, claim);
        name.append(".json");
        let dir = self.dispatches();
        join_path(dir.as_str(), name.as_str())
    }

    /// Where one dispatch's record is written before it is renamed into the
    /// registry: outside it, because every file in the registry is an entry a
    /// reader acts on.
    pub fn dispatch_temporary(&self, pid: u32, claim: u64) -> (r: String)
        ensures
            r@ == joined(
                self.dir@,
                "dispatch-"@ + dec(pid as nat) + "-"@ + dec(claim as nat) + ".tmp"@,
            ),
    {
        let mut name: String = String::from_str("dispatch-");
        text::push_dec(&mut name, pid as u64);
        name.append("-");
        text::push_dec(&mut name, claim);
        name.append(".tmp");
        join_path(self.dir.as_str(), name.as_str())
    }
}

/// Where one dispatch's record lies in a run's directory.
pub open spec fn dispatch_path(dir: Seq<char>, pid: u32, claim: u64) -> Seq<char> {
    joined(
        joined(dir, "dispatches"@),
        dec(pid as nat) + "-"@ + dec(claim as nat) + ".json"@,
    )
}

/// A number is written in digits, and at least one.
pub proof fn lemma_dec_digits(n: nat)
    ensures
        dec(n).len() > 0,
        forall|i: int| 0 <= i < dec(n).len() ==> '0' <= #[trigger] dec(n)[i] <= '9',
    decreases n,
{
    if n >= 10 {
        lemma_dec_digits(n / 10);
    }
}

/// Two dispatches never share a record: the process and the claim tell every two
/// apart.
pub proof fn law_two_dispatches_are_two_records(
    dir: Seq<char>,
    pid: u32,
    claim: u64,
    other_pid: u32,
    other_claim: u64,
)
    requires
        dispatch_path(dir, pid, claim) == dispatch_path(dir, other_pid, other_claim),
    ensures
        pid == other_pid,
        claim == other_claim,
{
    let base = joined(dir, "dispatches"@);
    let p = dec(pid as nat);
    let q = dec(other_pid as nat);
    let c = dec(claim as nat);
    let d = dec(other_claim as nat);
    let one = p + "-"@ + c + ".json"@;
    let two = q + "-"@ + d + ".json"@;
    lemma_dec_digits(pid as nat);
    lemma_dec_digits(other_pid as nat);
    reveal_strlit("-");
    reveal_strlit(".json");
    assert(one[0] == p[0]);
    assert(two[0] == q[0]);
    lemma_joined_injective(base, one, two);
    assert(one == two);
    if p.len() < q.len() {
        assert(one[p.len() as int] == '-');
        assert(two[p.len() as int] == q[p.len() as int]);
    }
    if q.len() < p.len() {
        assert(two[q.len() as int] == '-');
        assert(one[q.len() as int] == p[q.len() as int]);
    }
    assert(p =~= one.take(p.len() as int));
    assert(q =~= two.take(p.len() as int));
    let n = p.len() as int + 1;
    assert(c =~= one.subrange(n, one.len() - 5));
    assert(d =~= two.subrange(n, two.len() - 5));
    text::lemma_dec_injective(pid as nat, other_pid as nat);
    text::lemma_dec_injective(claim as nat, other_claim as nat);
}

/// A run root this build refused, and the reason it gave.
#[derive(Debug, PartialEq, Eq)]
pub struct Skipped {
    /// The directory that was refused, in the bytes the host names it by.
    pub path: Vec<u8>,
    /// Why, in the words the reader needs to act on it.
    pub reason: String,
}

impl Skipped {
    /// The directory as a reader is shown it.
    pub fn shown(&self) -> (r: String)
        ensures
            r@ == lossy_text(self.path@),
    {
        assert(self.path@.subrange(0, self.path@.len() as int) =~= self.path@);
        read_lossy(&self.path, 0, self.path.len())
    }
}

/// Every run a root records, and every run root under it that records none.
#[derive(Debug, PartialEq, Eq)]
pub struct RunIndex {
    /// The runs the root records, in id order.
    pub runs: Vec<RunPaths>,
    /// The run roots it refused, in path order.
    pub skipped: Vec<Skipped>,
}

impl Default for RunIndex {
    fn default() -> (r: Self)
        ensures
            r@ == (IndexModel { runs: Seq::empty(), skipped: Seq::empty() }),
    {
        let r = RunIndex { runs: Vec::new(), skipped: Vec::new() };
        assert(r@ =~= (IndexModel { runs: Seq::empty(), skipped: Seq::empty() }));
        r
    }
}

/// A run index as contracts speak of it: each run by its id and directory, and each
/// refusal by its path and reason.
#[verifier::ext_equal]
pub struct IndexModel {
    pub runs: Seq<(Seq<char>, Seq<char>)>,
    pub skipped: Seq<(Seq<u8>, Seq<char>)>,
}

impl View for RunIndex {
    type V = IndexModel;

    open spec fn view(&self) -> IndexModel {
        IndexModel {
            runs: self.runs@.map_values(|p: RunPaths| (p.run@, p.dir@)),
            skipped: self.skipped@.map_values(|s: Skipped| (s.path@, s.reason@)),
        }
    }
}

/// What the host says an entry under the runs root is.
#[derive(Debug, PartialEq, Eq)]
pub enum About {
    /// It went between the listing and the look.
    Gone,
    /// The host will not describe it.
    Undescribed(String),
    /// A directory.
    Directory,
    /// Something else.
    Other,
}

/// What the host says of a directory's launch record.
#[derive(Debug, PartialEq, Eq)]
pub enum LaunchSeen {
    /// A file.
    File,
    /// Something that is not a file.
    NotFile,
    /// Nothing at all.
    Missing,
    /// The host will not describe it.
    Unreadable(String),
}

/// One entry under the runs root.
#[derive(Debug, PartialEq, Eq)]
pub enum Entry {
    /// The host would not list it.
    Unreadable(String),
    /// The host listed it.
    Seen {
        /// Where it is, in the bytes the host names it by.
        path: Vec<u8>,
        /// Its name, where it is text.
        name: Option<String>,
        /// What it is.
        about: About,
        /// What its launch record is.
        launch: LaunchSeen,
    },
}

/// What the host says is under the runs root.
#[derive(Debug, PartialEq, Eq)]
pub enum Listing {
    /// There is no such directory.
    Missing,
    /// The host would not list it.
    Unreadable(String),
    /// Its entries.
    Entries(Vec<Entry>),
}

/// What an entry under the runs root is taken for.
pub ghost enum Verdict {
    /// A run, by its id and directory.
    Run(Seq<char>, Seq<char>),
    /// A refusal, by its path and reason.
    Skip(Seq<u8>, Seq<char>),
    /// Nothing ever said it was a run.
    Pass,
}

/// Why a directory with this launch record is not a run.
pub open spec fn launch_refused(launch: LaunchSeen) -> Option<Seq<char>> {
    match launch {
        LaunchSeen::File => None,
        LaunchSeen::NotFile => Some(
            "its "@ + LAUNCH_RECORD@ + " is not a file, so it records no launch"@,
        ),
        LaunchSeen::Missing => Some(
            "no "@ + LAUNCH_RECORD@ + ": a run root records the launch that owns it"@,
        ),
        LaunchSeen::Unreadable(error) => Some(
            "its "@ + LAUNCH_RECORD@ + " cannot be read: "@ + error@,
        ),
    }
}

/// What one entry under the runs root is taken for.
pub open spec fn verdict(root: Seq<char>, entry: Entry) -> Verdict {
    match entry {
        Entry::Unreadable(error) => Verdict::Skip(
            encode_utf8(root),
            "an entry under the runs root cannot be read: "@ + error@,
        ),
        Entry::Seen { path, name, about, launch } => match about {
            About::Gone => Verdict::Pass,
            About::Undescribed(error) => Verdict::Skip(
                path@,
                "this host will not describe it: "@ + error@,
            ),
            About::Other => Verdict::Pass,
            About::Directory => match name {
                None => Verdict::Skip(
                    path@,
                    "its name is not text this host can read, so no run id names it"@,
                ),
                Some(name) => match launch_refused(launch) {
                    Some(reason) => Verdict::Skip(encode_utf8(joined(root, name@)), reason),
                    None => Verdict::Run(name@, joined(root, name@)),
                },
            },
        },
    }
}

/// The order of paths the host names by bytes, each the root or a name under it: the
/// first byte that differs decides, and a proper prefix comes first.
pub open spec fn path_precedes(a: Seq<u8>, b: Seq<u8>) -> bool
    decreases b.len(),
{
    if b.len() == 0 {
        false
    } else if a.len() == 0 {
        true
    } else if a[0] != b[0] {
        a[0] < b[0]
    } else {
        path_precedes(a.skip(1), b.skip(1))
    }
}

fn path_before(a: &Vec<u8>, b: &Vec<u8>) -> (r: bool)
    ensures
        r == path_precedes(a@, b@),
{
    let mut i: usize = 0;
    assert(a@.skip(0) =~= a@ && b@.skip(0) =~= b@);
    while i < a.len() && i < b.len()
        invariant
            i <= a@.len(),
            i <= b@.len(),
            path_precedes(a@, b@) == path_precedes(a@.skip(i as int), b@.skip(i as int)),
        decreases a@.len() - i,
    {
        if a[i] != b[i] {
            assert(a@.skip(i as int)[0] == a@[i as int] && b@.skip(i as int)[0] == b@[i as int]);
            return a[i] < b[i];
        }
        proof {
            assert(a@.skip(i as int).skip(1) =~= a@.skip(i + 1));
            assert(b@.skip(i as int).skip(1) =~= b@.skip(i + 1));
        }
        i += 1;
    }
    i < b.len()
}

proof fn lemma_path_irreflexive(a: Seq<u8>)
    ensures
        !path_precedes(a, a),
    decreases a.len(),
{
    if a.len() > 0 {
        lemma_path_irreflexive(a.skip(1));
    }
}

proof fn lemma_path_transitive(a: Seq<u8>, b: Seq<u8>, c: Seq<u8>)
    requires
        path_precedes(a, b),
        path_precedes(b, c),
    ensures
        path_precedes(a, c),
    decreases b.len(),
{
    if a.len() > 0 && a[0] == b[0] && b[0] == c[0] {
        lemma_path_transitive(a.skip(1), b.skip(1), c.skip(1));
    }
}

/// The order of run ids.
pub open spec fn by_id() -> spec_fn(Seq<char>, Seq<char>) -> bool {
    |a: Seq<char>, b: Seq<char>| precedes(a, b)
}

/// The order of paths.
pub open spec fn by_path() -> spec_fn(Seq<u8>, Seq<u8>) -> bool {
    |a: Seq<u8>, b: Seq<u8>| path_precedes(a, b)
}

/// A strict order.
pub open spec fn is_strict<K>(before: spec_fn(K, K) -> bool) -> bool {
    &&& forall|a: K| !#[trigger] before(a, a)
    &&& forall|a: K, b: K, c: K| #[trigger] before(a, b) && #[trigger] before(b, c) ==> before(a, c)
}

proof fn lemma_orders_are_strict()
    ensures
        is_strict(by_id()),
        is_strict(by_path()),
{
    let ids = by_id();
    assert forall|a: Seq<char>| !#[trigger] ids(a, a) by {
        text::lemma_precedes_irreflexive(a);
    }
    assert forall|a: Seq<char>, b: Seq<char>, c: Seq<char>| #[trigger]
        ids(a, b) && #[trigger] ids(b, c) implies ids(a, c) by {
        text::lemma_precedes_transitive(a, b, c);
    }
    let paths = by_path();
    assert forall|a: Seq<u8>| !#[trigger] paths(a, a) by {
        lemma_path_irreflexive(a);
    }
    assert forall|a: Seq<u8>, b: Seq<u8>, c: Seq<u8>| #[trigger]
        paths(a, b) && #[trigger] paths(b, c) implies paths(a, c) by {
        lemma_path_transitive(a, b, c);
    }
}

/// A pair put into a list before the first whose key comes after its own.
pub open spec fn insert_pair<K>(
    list: Seq<(K, Seq<char>)>,
    pair: (K, Seq<char>),
    before: spec_fn(K, K) -> bool,
) -> Seq<(K, Seq<char>)>
    decreases list.len(),
{
    if list.len() == 0 {
        seq![pair]
    } else if before(pair.0, list[0].0) {
        seq![pair] + list
    } else {
        seq![list[0]] + insert_pair(list.skip(1), pair, before)
    }
}

/// What the entries under a root come to: the runs in id order, and the refusals in
/// path order.
pub open spec fn indexed(root: Seq<char>, entries: Seq<Entry>) -> IndexModel
    decreases entries.len(),
{
    if entries.len() == 0 {
        IndexModel { runs: Seq::empty(), skipped: Seq::empty() }
    } else {
        let before = indexed(root, entries.drop_last());
        match verdict(root, entries.last()) {
            Verdict::Run(run, dir) => IndexModel {
                runs: insert_pair(before.runs, (run, dir), by_id()),
                ..before
            },
            Verdict::Skip(path, reason) => IndexModel {
                skipped: insert_pair(before.skipped, (path, reason), by_path()),
                ..before
            },
            Verdict::Pass => before,
        }
    }
}

/// What a listing of the runs root comes to: a root nobody has written to holds
/// nothing to reject, and one the host will not list is itself refused.
pub open spec fn index_of(root: Seq<char>, listing: Listing) -> IndexModel {
    match listing {
        Listing::Missing => IndexModel { runs: Seq::empty(), skipped: Seq::empty() },
        Listing::Unreadable(error) => IndexModel {
            runs: Seq::empty(),
            skipped: seq![(encode_utf8(root), "the runs root cannot be read: "@ + error@)],
        },
        Listing::Entries(entries) => indexed(root, entries@),
    }
}

/// The step of an insertion: what is before a position stays, and the rest takes the
/// new pair.
proof fn lemma_insert_step<K>(
    list: Seq<(K, Seq<char>)>,
    pair: (K, Seq<char>),
    before: spec_fn(K, K) -> bool,
    i: int,
)
    requires
        0 <= i < list.len(),
        !before(pair.0, list[i].0),
    ensures
        list.take(i) + insert_pair(list.skip(i), pair, before) == list.take(i + 1) + insert_pair(
            list.skip(i + 1),
            pair,
            before,
        ),
{
    let rest = list.skip(i);
    assert(rest[0] == list[i]);
    assert(rest.skip(1) =~= list.skip(i + 1));
    assert(list.take(i) + insert_pair(rest, pair, before) =~= list.take(i + 1) + insert_pair(
        list.skip(i + 1),
        pair,
        before,
    ));
}

proof fn lemma_insert_done<K>(
    list: Seq<(K, Seq<char>)>,
    pair: (K, Seq<char>),
    before: spec_fn(K, K) -> bool,
    i: int,
)
    requires
        0 <= i <= list.len(),
        i < list.len() ==> before(pair.0, list[i].0),
    ensures
        list.take(i) + insert_pair(list.skip(i), pair, before) == list.insert(i, pair),
{
    let rest = list.skip(i);
    if i < list.len() {
        assert(rest[0] == list[i]);
    } else {
        assert(rest.len() == 0);
    }
    assert(list.take(i) + insert_pair(rest, pair, before) =~= list.insert(i, pair));
}

impl RunIndex {
    fn add_run(&mut self, paths: RunPaths)
        ensures
            final(self)@ == (IndexModel {
                runs: insert_pair(old(self)@.runs, (paths.run@, paths.dir@), by_id()),
                ..old(self)@
            }),
    {
        let ghost list = self@.runs;
        let ghost pair = (paths.run@, paths.dir@);
        let mut i: usize = 0;
        assert(list.skip(0) =~= list);
        assert(list.take(0) + insert_pair(list, pair, by_id()) =~= insert_pair(list, pair, by_id()));
        while i < self.runs.len() && !text::before(paths.run.as_str(), self.runs[i].run.as_str())
            invariant
                self@ == old(self)@,
                list == self@.runs,
                list.len() == self.runs@.len(),
                pair == (paths.run@, paths.dir@),
                i <= self.runs@.len(),
                list.take(i as int) + insert_pair(list.skip(i as int), pair, by_id())
                    == insert_pair(list, pair, by_id()),
            decreases self.runs@.len() - i,
        {
            proof {
                assert(list[i as int].0 == self.runs@[i as int].run@);
                lemma_insert_step(list, pair, by_id(), i as int);
            }
            i += 1;
        }
        proof {
            if i < list.len() {
                assert(list[i as int].0 == self.runs@[i as int].run@);
            }
            lemma_insert_done(list, pair, by_id(), i as int);
        }
        self.runs.insert(i, paths);
        assert(self@.runs =~= list.insert(i as int, pair));
        assert(self@.skipped =~= old(self)@.skipped);
    }

    fn add_skipped(&mut self, skipped: Skipped)
        ensures
            final(self)@ == (IndexModel {
                skipped: insert_pair(old(self)@.skipped, (skipped.path@, skipped.reason@), by_path()),
                ..old(self)@
            }),
    {
        let ghost list = self@.skipped;
        let ghost pair = (skipped.path@, skipped.reason@);
        let mut i: usize = 0;
        assert(list.skip(0) =~= list);
        assert(list.take(0) + insert_pair(list, pair, by_path()) =~= insert_pair(list, pair, by_path()));
        while i < self.skipped.len() && !path_before(&skipped.path, &self.skipped[i].path)
            invariant
                self@ == old(self)@,
                list == self@.skipped,
                list.len() == self.skipped@.len(),
                pair == (skipped.path@, skipped.reason@),
                i <= self.skipped@.len(),
                list.take(i as int) + insert_pair(list.skip(i as int), pair, by_path())
                    == insert_pair(list, pair, by_path()),
            decreases self.skipped@.len() - i,
        {
            proof {
                assert(list[i as int].0 == self.skipped@[i as int].path@);
                lemma_insert_step(list, pair, by_path(), i as int);
            }
            i += 1;
        }
        proof {
            if i < list.len() {
                assert(list[i as int].0 == self.skipped@[i as int].path@);
            }
            lemma_insert_done(list, pair, by_path(), i as int);
        }
        self.skipped.insert(i, skipped);
        assert(self@.skipped =~= list.insert(i as int, pair));
        assert(self@.runs =~= old(self)@.runs);
    }

    fn add(&mut self, root: &str, entry: &Entry)
        ensures
            final(self)@ == (match verdict(root@, *entry) {
                Verdict::Run(run, dir) => IndexModel {
                    runs: insert_pair(old(self)@.runs, (run, dir), by_id()),
                    ..old(self)@
                },
                Verdict::Skip(path, reason) => IndexModel {
                    skipped: insert_pair(old(self)@.skipped, (path, reason), by_path()),
                    ..old(self)@
                },
                Verdict::Pass => old(self)@,
            }),
    {
        match entry {
            Entry::Unreadable(error) => {
                let mut reason: String = String::from_str(
                    "an entry under the runs root cannot be read: ",
                );
                reason.append(error.as_str());
                self.add_skipped(Skipped { path: slice_to_vec(root.as_bytes()), reason });
            },
            Entry::Seen { path, name, about, launch } => match about {
                About::Gone => {},
                About::Other => {},
                About::Undescribed(error) => {
                    let mut reason: String = String::from_str("this host will not describe it: ");
                    reason.append(error.as_str());
                    self.add_skipped(Skipped { path: slice_to_vec(path.as_slice()), reason });
                },
                About::Directory => match name {
                    None => {
                        let reason: String =
                            "its name is not text this host can read, so no run id names it".to_owned();
                        self.add_skipped(Skipped { path: slice_to_vec(path.as_slice()), reason });
                    },
                    Some(name) => {
                        let paths = RunPaths::under(root, name.as_str());
                        match refuse_launch(launch) {
                            Some(reason) => {
                                self.add_skipped(
                                    Skipped {
                                        path: slice_to_vec(paths.dir.as_str().as_bytes()),
                                        reason,
                                    },
                                );
                            },
                            None => {
                                self.add_run(paths);
                            },
                        }
                    },
                },
            },
        }
    }
}

fn refuse_launch(launch: &LaunchSeen) -> (r: Option<String>)
    ensures
        text::text_of(r) == launch_refused(*launch),
{
    match launch {
        LaunchSeen::File => None,
        LaunchSeen::NotFile => {
            let mut why: String = String::from_str("its ");
            why.append(LAUNCH_RECORD);
            why.append(" is not a file, so it records no launch");
            Some(why)
        },
        LaunchSeen::Missing => {
            let mut why: String = String::from_str("no ");
            why.append(LAUNCH_RECORD);
            why.append(": a run root records the launch that owns it");
            Some(why)
        },
        LaunchSeen::Unreadable(error) => {
            let mut why: String = String::from_str("its ");
            why.append(LAUNCH_RECORD);
            why.append(" cannot be read: ");
            why.append(error.as_str());
            Some(why)
        },
    }
}

/// Every run the root records, in id order, and every run root it refused.
///
/// A directory under the runs root is a claim to be a run, and one this build cannot
/// read is a claim it is rejecting — so it comes back named. A plain file beside the
/// runs is not such a claim and is passed over.
pub fn all_runs(root: &str, listing: &Listing) -> (r: RunIndex)
    ensures
        r@ == index_of(root@, *listing),
{
    let mut index = RunIndex::default();
    match listing {
        Listing::Missing => {},
        Listing::Unreadable(error) => {
            let mut reason: String = String::from_str("the runs root cannot be read: ");
            reason.append(error.as_str());
            index.skipped.push(Skipped { path: slice_to_vec(root.as_bytes()), reason });
            assert(index@ =~= index_of(root@, *listing));
        },
        Listing::Entries(entries) => {
            let mut i: usize = 0;
            while i < entries.len()
                invariant
                    i <= entries@.len(),
                    index@ == indexed(root@, entries@.take(i as int)),
                decreases entries@.len() - i,
            {
                proof {
                    assert(entries@.take(i + 1).drop_last() =~= entries@.take(i as int));
                    assert(entries@.take(i + 1).last() == entries@[i as int]);
                }
                index.add(root, &entries[i]);
                i += 1;
            }
            assert(entries@.take(entries@.len() as int) =~= entries@);
        },
    }
    index
}

/// How many entries claimed to be a run.
pub open spec fn claims(root: Seq<char>, entries: Seq<Entry>) -> nat
    decreases entries.len(),
{
    if entries.len() == 0 {
        0
    } else {
        claims(root, entries.drop_last()) + (if verdict(root, entries.last()) is Pass {
            0nat
        } else {
            1nat
        })
    }
}

proof fn lemma_insert_len<K>(
    list: Seq<(K, Seq<char>)>,
    pair: (K, Seq<char>),
    before: spec_fn(K, K) -> bool,
)
    ensures
        insert_pair(list, pair, before).len() == list.len() + 1,
    decreases list.len(),
{
    if list.len() > 0 && !before(pair.0, list[0].0) {
        lemma_insert_len(list.skip(1), pair, before);
    }
}

/// Every claim to be a run comes back, as a run or as a refusal: none is dropped and
/// none is invented.
pub proof fn law_every_claim_comes_back_named(root: Seq<char>, entries: Seq<Entry>)
    ensures
        indexed(root, entries).runs.len() + indexed(root, entries).skipped.len() == claims(
            root,
            entries,
        ),
    decreases entries.len(),
{
    if entries.len() > 0 {
        law_every_claim_comes_back_named(root, entries.drop_last());
        let before = indexed(root, entries.drop_last());
        match verdict(root, entries.last()) {
            Verdict::Run(run, dir) => {
                lemma_insert_len(before.runs, (run, dir), by_id());
            },
            Verdict::Skip(path, reason) => {
                lemma_insert_len(before.skipped, (path, reason), by_path());
            },
            Verdict::Pass => {},
        }
    }
}

/// A list whose keys never go down.
pub open spec fn in_order<K>(list: Seq<(K, Seq<char>)>, before: spec_fn(K, K) -> bool) -> bool {
    forall|i: int, j: int|
        0 <= i < j < list.len() ==> !before((#[trigger] list[j]).0, (#[trigger] list[i]).0)
}

proof fn lemma_insert_in_order<K>(
    list: Seq<(K, Seq<char>)>,
    pair: (K, Seq<char>),
    before: spec_fn(K, K) -> bool,
)
    requires
        is_strict(before),
        in_order(list, before),
    ensures
        in_order(insert_pair(list, pair, before), before),
        forall|bound: K|
            above(list, bound, before) && !before(pair.0, bound) ==> #[trigger] above(
                insert_pair(list, pair, before),
                bound,
                before,
            ),
    decreases list.len(),
{
    let made = insert_pair(list, pair, before);
    if list.len() == 0 {
    } else if before(pair.0, list[0].0) {
        assert forall|j: int| 0 < j < made.len() implies !before(
            (#[trigger] made[j]).0,
            made[0].0,
        ) by {
            let k = j - 1;
            assert(made[j] == list[k]);
            if before(list[k].0, pair.0) {
                assert(before(list[k].0, list[0].0));
                if k == 0 {
                    assert(!before(list[0].0, list[0].0));
                }
            }
        }
        assert forall|i: int, j: int| 0 <= i < j < made.len() implies !before(
            (#[trigger] made[j]).0,
            (#[trigger] made[i]).0,
        ) by {
            if i > 0 {
                assert(made[i] == list[i - 1]);
                assert(made[j] == list[j - 1]);
            }
        }
        assert forall|bound: K| above(list, bound, before) && !before(pair.0, bound) implies
            #[trigger] above(made, bound, before) by {
            assert forall|i: int| 0 <= i < made.len() implies !before(
                (#[trigger] made[i]).0,
                bound,
            ) by {
                if i > 0 {
                    assert(made[i] == list[i - 1]);
                }
            }
        }
    } else {
        let rest = list.skip(1);
        assert(in_order(rest, before)) by {
            assert forall|i: int, j: int| 0 <= i < j < rest.len() implies !before(
                (#[trigger] rest[j]).0,
                (#[trigger] rest[i]).0,
            ) by {
                assert(rest[i] == list[i + 1]);
                assert(rest[j] == list[j + 1]);
            }
        }
        lemma_insert_in_order(rest, pair, before);
        let inner = insert_pair(rest, pair, before);
        assert(above(rest, list[0].0, before)) by {
            assert forall|i: int| 0 <= i < rest.len() implies !before(
                (#[trigger] rest[i]).0,
                list[0].0,
            ) by {
                assert(rest[i] == list[i + 1]);
            }
        }
        assert(above(inner, list[0].0, before));
        assert forall|i: int, j: int| 0 <= i < j < made.len() implies !before(
            (#[trigger] made[j]).0,
            (#[trigger] made[i]).0,
        ) by {
            assert(made[j] == inner[j - 1]);
            if i > 0 {
                assert(made[i] == inner[i - 1]);
            }
        }
        assert forall|bound: K| above(list, bound, before) && !before(pair.0, bound) implies
            #[trigger] above(made, bound, before) by {
            assert(above(rest, bound, before)) by {
                assert forall|i: int| 0 <= i < rest.len() implies !before(
                    (#[trigger] rest[i]).0,
                    bound,
                ) by {
                    assert(rest[i] == list[i + 1]);
                }
            }
            assert(above(inner, bound, before));
            assert forall|i: int| 0 <= i < made.len() implies !before(
                (#[trigger] made[i]).0,
                bound,
            ) by {
                if i > 0 {
                    assert(made[i] == inner[i - 1]);
                } else {
                    assert(made[0] == list[0]);
                }
            }
        }
    }
}

/// No key of a list comes before another.
pub open spec fn above<K>(
    list: Seq<(K, Seq<char>)>,
    bound: K,
    before: spec_fn(K, K) -> bool,
) -> bool {
    forall|i: int| 0 <= i < list.len() ==> !before((#[trigger] list[i]).0, bound)
}

/// The runs come back in id order and the refusals in path order.
pub proof fn law_the_index_is_in_order(root: Seq<char>, entries: Seq<Entry>)
    ensures
        in_order(indexed(root, entries).runs, by_id()),
        in_order(indexed(root, entries).skipped, by_path()),
    decreases entries.len(),
{
    if entries.len() > 0 {
        law_the_index_is_in_order(root, entries.drop_last());
        let before = indexed(root, entries.drop_last());
        lemma_orders_are_strict();
        match verdict(root, entries.last()) {
            Verdict::Run(run, dir) => {
                lemma_insert_in_order(before.runs, (run, dir), by_id());
            },
            Verdict::Skip(path, reason) => {
                lemma_insert_in_order(before.skipped, (path, reason), by_path());
            },
            Verdict::Pass => {},
        }
    }
}

/// What a launch recorded about a run, and what an adoption replays it from.
#[derive(Debug, PartialEq, Eq)]
pub struct LaunchRecord {
    /// The run id.
    pub run_id: String,
    /// The plan file the run was launched with.
    pub plan: String,
    /// The directory every member of this run works in; empty only on a record
    /// written before the field existed.
    pub dir: String,
    /// The dag-scope agent-graph config launched as this run's observer.
    pub graph: String,
    /// The agent-graph run this run's observer graph is.
    pub graph_run: String,
    /// The default node-scope agent-graph config every dispatch launches.
    pub node_graph: String,
    /// The agent-graph config a change request body is drafted by.
    pub pr_author_graph: String,
    /// The launcher, as the environment reported it.
    pub launcher: String,
    /// The launching session.
    pub session: String,
    /// The driver process.
    pub pid: u32,
    /// The host that pid is meaningful on.
    pub host: String,
    /// That driver's own process start token; empty is not a match.
    pub started: String,
    /// When the run was launched.
    pub started_at: String,
    /// The pacemaker interval, in seconds.
    pub heartbeat_interval: u64,
    /// Opaque overrides replayed on the dag-scope graph launch.
    pub dag_sets: Vec<String>,
    /// Opaque overrides replayed on every node-scope graph launch.
    pub node_sets: Vec<String>,
    /// How many times a fresh driver has been attached.
    pub adoptions: u32,
    /// What this launch said about its run's events.
    pub filters: Filters,
}

/// A launch record as contracts speak of it.
#[verifier::ext_equal]
pub struct LaunchRecordModel {
    pub run_id: Seq<char>,
    pub plan: Seq<char>,
    pub dir: Seq<char>,
    pub graph: Seq<char>,
    pub graph_run: Seq<char>,
    pub node_graph: Seq<char>,
    pub pr_author_graph: Seq<char>,
    pub launcher: Seq<char>,
    pub session: Seq<char>,
    pub pid: u32,
    pub host: Seq<char>,
    pub started: Seq<char>,
    pub started_at: Seq<char>,
    pub heartbeat_interval: u64,
    pub dag_sets: Seq<Seq<char>>,
    pub node_sets: Seq<Seq<char>>,
    pub adoptions: u32,
    pub filters: FiltersModel,
}

impl View for LaunchRecord {
    type V = LaunchRecordModel;

    open spec fn view(&self) -> LaunchRecordModel {
        LaunchRecordModel {
            run_id: self.run_id@,
            plan: self.plan@,
            dir: self.dir@,
            graph: self.graph@,
            graph_run: self.graph_run@,
            node_graph: self.node_graph@,
            pr_author_graph: self.pr_author_graph@,
            launcher: self.launcher@,
            session: self.session@,
            pid: self.pid,
            host: self.host@,
            started: self.started@,
            started_at: self.started_at@,
            heartbeat_interval: self.heartbeat_interval,
            dag_sets: texts(self.dag_sets@),
            node_sets: texts(self.node_sets@),
            adoptions: self.adoptions,
            filters: self.filters@,
        }
    }
}

/// The keys of a launch record.
pub open spec fn launch_keys() -> Seq<Key> {
    seq![
        Key { name: "run_id", kind: Kind::Text, required: true },
        Key { name: "plan", kind: Kind::Text, required: true },
        Key { name: "dir", kind: Kind::Text, required: false },
        Key { name: "graph", kind: Kind::Text, required: false },
        Key { name: "graph_run", kind: Kind::Text, required: false },
        Key { name: "node_graph", kind: Kind::Text, required: false },
        Key { name: "pr_author_graph", kind: Kind::Text, required: false },
        Key { name: "launcher", kind: Kind::Text, required: true },
        Key { name: "session", kind: Kind::Text, required: true },
        Key { name: "pid", kind: Kind::Small, required: true },
        Key { name: "host", kind: Kind::Text, required: true },
        Key { name: "started", kind: Kind::Text, required: false },
        Key { name: "started_at", kind: Kind::Text, required: true },
        Key { name: "heartbeat_interval", kind: Kind::Count, required: true },
        Key { name: "dag_sets", kind: Kind::Texts, required: false },
        Key { name: "node_sets", kind: Kind::Texts, required: false },
        Key { name: "adoptions", kind: Kind::Small, required: false },
        Key { name: "filters", kind: Kind::Any, required: false },
    ]
}

fn list_launch_keys() -> (r: Vec<Key>)
    ensures
        r@ == launch_keys(),
{
    let r: Vec<Key> = vec![
        Key { name: "run_id", kind: Kind::Text, required: true },
        Key { name: "plan", kind: Kind::Text, required: true },
        Key { name: "dir", kind: Kind::Text, required: false },
        Key { name: "graph", kind: Kind::Text, required: false },
        Key { name: "graph_run", kind: Kind::Text, required: false },
        Key { name: "node_graph", kind: Kind::Text, required: false },
        Key { name: "pr_author_graph", kind: Kind::Text, required: false },
        Key { name: "launcher", kind: Kind::Text, required: true },
        Key { name: "session", kind: Kind::Text, required: true },
        Key { name: "pid", kind: Kind::Small, required: true },
        Key { name: "host", kind: Kind::Text, required: true },
        Key { name: "started", kind: Kind::Text, required: false },
        Key { name: "started_at", kind: Kind::Text, required: true },
        Key { name: "heartbeat_interval", kind: Kind::Count, required: true },
        Key { name: "dag_sets", kind: Kind::Texts, required: false },
        Key { name: "node_sets", kind: Kind::Texts, required: false },
        Key { name: "adoptions", kind: Kind::Small, required: false },
        Key { name: "filters", kind: Kind::Any, required: false },
    ];
    assert(r@ =~= launch_keys());
    r
}

/// The launch record a document holds.
pub open spec fn launch_record_of(document: Json) -> LaunchRecordModel {
    let fields = document->Object_0@;
    LaunchRecordModel {
        run_id: record::text_or_empty(fields, "run_id"@),
        plan: record::text_or_empty(fields, "plan"@),
        dir: record::text_or_empty(fields, "dir"@),
        graph: record::text_or_empty(fields, "graph"@),
        graph_run: record::text_or_empty(fields, "graph_run"@),
        node_graph: record::text_or_empty(fields, "node_graph"@),
        pr_author_graph: record::text_or_empty(fields, "pr_author_graph"@),
        launcher: record::text_or_empty(fields, "launcher"@),
        session: record::text_or_empty(fields, "session"@),
        pid: record::count_or_zero(fields, "pid"@) as u32,
        host: record::text_or_empty(fields, "host"@),
        started: record::text_or_empty(fields, "started"@),
        started_at: record::text_or_empty(fields, "started_at"@),
        heartbeat_interval: record::count_or_zero(fields, "heartbeat_interval"@),
        dag_sets: record::texts_or_none(fields, "dag_sets"@),
        node_sets: record::texts_or_none(fields, "node_sets"@),
        adoptions: record::count_or_zero(fields, "adoptions"@) as u32,
        filters: filters_of(field_in(fields, "filters"@)),
    }
}

/// A document is a launch record.
pub open spec fn is_launch_record(document: Json) -> bool {
    record::is_record(launch_keys(), document) && are_filters(
        field_in(document->Object_0@, "filters"@),
    )
}

/// The names of a launch record's keys are told apart.
proof fn lemma_launch_names()
    ensures

        "run_id"@ != "plan"@,
        "run_id"@ != "dir"@,
        "run_id"@ != "graph"@,
        "run_id"@ != "graph_run"@,
        "run_id"@ != "node_graph"@,
        "run_id"@ != "pr_author_graph"@,
        "run_id"@ != "launcher"@,
        "run_id"@ != "session"@,
        "run_id"@ != "pid"@,
        "run_id"@ != "host"@,
        "run_id"@ != "started"@,
        "run_id"@ != "started_at"@,
        "run_id"@ != "heartbeat_interval"@,
        "run_id"@ != "dag_sets"@,
        "run_id"@ != "node_sets"@,
        "run_id"@ != "adoptions"@,
        "run_id"@ != "filters"@,
        "plan"@ != "dir"@,
        "plan"@ != "graph"@,
        "plan"@ != "graph_run"@,
        "plan"@ != "node_graph"@,
        "plan"@ != "pr_author_graph"@,
        "plan"@ != "launcher"@,
        "plan"@ != "session"@,
        "plan"@ != "pid"@,
        "plan"@ != "host"@,
        "plan"@ != "started"@,
        "plan"@ != "started_at"@,
        "plan"@ != "heartbeat_interval"@,
        "plan"@ != "dag_sets"@,
        "plan"@ != "node_sets"@,
        "plan"@ != "adoptions"@,
        "plan"@ != "filters"@,
        "dir"@ != "graph"@,
        "dir"@ != "graph_run"@,
        "dir"@ != "node_graph"@,
        "dir"@ != "pr_author_graph"@,
        "dir"@ != "launcher"@,
        "dir"@ != "session"@,
        "dir"@ != "pid"@,
        "dir"@ != "host"@,
        "dir"@ != "started"@,
        "dir"@ != "started_at"@,
        "dir"@ != "heartbeat_interval"@,
        "dir"@ != "dag_sets"@,
        "dir"@ != "node_sets"@,
        "dir"@ != "adoptions"@,
        "dir"@ != "filters"@,
        "graph"@ != "graph_run"@,
        "graph"@ != "node_graph"@,
        "graph"@ != "pr_author_graph"@,
        "graph"@ != "launcher"@,
        "graph"@ != "session"@,
        "graph"@ != "pid"@,
        "graph"@ != "host"@,
        "graph"@ != "started"@,
        "graph"@ != "started_at"@,
        "graph"@ != "heartbeat_interval"@,
        "graph"@ != "dag_sets"@,
        "graph"@ != "node_sets"@,
        "graph"@ != "adoptions"@,
        "graph"@ != "filters"@,
        "graph_run"@ != "node_graph"@,
        "graph_run"@ != "pr_author_graph"@,
        "graph_run"@ != "launcher"@,
        "graph_run"@ != "session"@,
        "graph_run"@ != "pid"@,
        "graph_run"@ != "host"@,
        "graph_run"@ != "started"@,
        "graph_run"@ != "started_at"@,
        "graph_run"@ != "heartbeat_interval"@,
        "graph_run"@ != "dag_sets"@,
        "graph_run"@ != "node_sets"@,
        "graph_run"@ != "adoptions"@,
        "graph_run"@ != "filters"@,
        "node_graph"@ != "pr_author_graph"@,
        "node_graph"@ != "launcher"@,
        "node_graph"@ != "session"@,
        "node_graph"@ != "pid"@,
        "node_graph"@ != "host"@,
        "node_graph"@ != "started"@,
        "node_graph"@ != "started_at"@,
        "node_graph"@ != "heartbeat_interval"@,
        "node_graph"@ != "dag_sets"@,
        "node_graph"@ != "node_sets"@,
        "node_graph"@ != "adoptions"@,
        "node_graph"@ != "filters"@,
        "pr_author_graph"@ != "launcher"@,
        "pr_author_graph"@ != "session"@,
        "pr_author_graph"@ != "pid"@,
        "pr_author_graph"@ != "host"@,
        "pr_author_graph"@ != "started"@,
        "pr_author_graph"@ != "started_at"@,
        "pr_author_graph"@ != "heartbeat_interval"@,
        "pr_author_graph"@ != "dag_sets"@,
        "pr_author_graph"@ != "node_sets"@,
        "pr_author_graph"@ != "adoptions"@,
        "pr_author_graph"@ != "filters"@,
        "launcher"@ != "session"@,
        "launcher"@ != "pid"@,
        "launcher"@ != "host"@,
        "launcher"@ != "started"@,
        "launcher"@ != "started_at"@,
        "launcher"@ != "heartbeat_interval"@,
        "launcher"@ != "dag_sets"@,
        "launcher"@ != "node_sets"@,
        "launcher"@ != "adoptions"@,
        "launcher"@ != "filters"@,
        "session"@ != "pid"@,
        "session"@ != "host"@,
        "session"@ != "started"@,
        "session"@ != "started_at"@,
        "session"@ != "heartbeat_interval"@,
        "session"@ != "dag_sets"@,
        "session"@ != "node_sets"@,
        "session"@ != "adoptions"@,
        "session"@ != "filters"@,
        "pid"@ != "host"@,
        "pid"@ != "started"@,
        "pid"@ != "started_at"@,
        "pid"@ != "heartbeat_interval"@,
        "pid"@ != "dag_sets"@,
        "pid"@ != "node_sets"@,
        "pid"@ != "adoptions"@,
        "pid"@ != "filters"@,
        "host"@ != "started"@,
        "host"@ != "started_at"@,
        "host"@ != "heartbeat_interval"@,
        "host"@ != "dag_sets"@,
        "host"@ != "node_sets"@,
        "host"@ != "adoptions"@,
        "host"@ != "filters"@,
        "started"@ != "started_at"@,
        "started"@ != "heartbeat_interval"@,
        "started"@ != "dag_sets"@,
        "started"@ != "node_sets"@,
        "started"@ != "adoptions"@,
        "started"@ != "filters"@,
        "started_at"@ != "heartbeat_interval"@,
        "started_at"@ != "dag_sets"@,
        "started_at"@ != "node_sets"@,
        "started_at"@ != "adoptions"@,
        "started_at"@ != "filters"@,
        "heartbeat_interval"@ != "dag_sets"@,
        "heartbeat_interval"@ != "node_sets"@,
        "heartbeat_interval"@ != "adoptions"@,
        "heartbeat_interval"@ != "filters"@,
        "dag_sets"@ != "node_sets"@,
        "dag_sets"@ != "adoptions"@,
        "dag_sets"@ != "filters"@,
        "node_sets"@ != "adoptions"@,
        "node_sets"@ != "filters"@,
        "adoptions"@ != "filters"@,
{
    reveal_strlit("run_id");
    reveal_strlit("plan");
    reveal_strlit("dir");
    reveal_strlit("graph");
    reveal_strlit("graph_run");
    reveal_strlit("node_graph");
    reveal_strlit("pr_author_graph");
    reveal_strlit("launcher");
    reveal_strlit("session");
    reveal_strlit("pid");
    reveal_strlit("host");
    reveal_strlit("started");
    reveal_strlit("started_at");
    reveal_strlit("heartbeat_interval");
    reveal_strlit("dag_sets");
    reveal_strlit("node_sets");
    reveal_strlit("adoptions");
    reveal_strlit("filters");
    assert("run_id"@.len() == 6);
    assert("plan"@.len() == 4);
    assert("dir"@.len() == 3);
    assert("graph"@.len() == 5);
    assert("graph_run"@.len() == 9);
    assert("node_graph"@.len() == 10);
    assert("pr_author_graph"@.len() == 15);
    assert("launcher"@.len() == 8);
    assert("session"@.len() == 7);
    assert("pid"@.len() == 3);
    assert("host"@.len() == 4);
    assert("started"@.len() == 7);
    assert("started_at"@.len() == 10);
    assert("heartbeat_interval"@.len() == 18);
    assert("dag_sets"@.len() == 8);
    assert("node_sets"@.len() == 9);
    assert("adoptions"@.len() == 9);
    assert("filters"@.len() == 7);
    assert("plan"@[0] == 'p' && "host"@[0] == 'h');
    assert("dir"@[0] == 'd' && "pid"@[0] == 'p');
    assert("graph_run"@[0] == 'g' && "node_sets"@[0] == 'n');
    assert("graph_run"@[0] == 'g' && "adoptions"@[0] == 'a');
    assert("node_graph"@[0] == 'n' && "started_at"@[0] == 's');
    assert("launcher"@[0] == 'l' && "dag_sets"@[0] == 'd');
    assert("session"@[1] == 'e' && "started"@[1] == 't');
    assert("session"@[0] == 's' && "filters"@[0] == 'f');
    assert("started"@[0] == 's' && "filters"@[0] == 'f');
    assert("node_sets"@[0] == 'n' && "adoptions"@[0] == 'a');
}

/// The position of a launch record's key.
spec fn launch_slot(name: Seq<char>) -> int {
    if name == "run_id"@ {
        0
    } else if name == "plan"@ {
        1
    } else if name == "dir"@ {
        2
    } else if name == "graph"@ {
        3
    } else if name == "graph_run"@ {
        4
    } else if name == "node_graph"@ {
        5
    } else if name == "pr_author_graph"@ {
        6
    } else if name == "launcher"@ {
        7
    } else if name == "session"@ {
        8
    } else if name == "pid"@ {
        9
    } else if name == "host"@ {
        10
    } else if name == "started"@ {
        11
    } else if name == "started_at"@ {
        12
    } else if name == "heartbeat_interval"@ {
        13
    } else if name == "dag_sets"@ {
        14
    } else if name == "node_sets"@ {
        15
    } else if name == "adoptions"@ {
        16
    } else if name == "filters"@ {
        17
    } else {
        -1
    }
}

proof fn lemma_launch_distinct()
    ensures
        record::distinct(launch_keys()),
{
    let keys = launch_keys();
    lemma_launch_names();
    assert forall|k: int| 0 <= k < keys.len() implies launch_slot((#[trigger] keys[k]).name@)
        == k by {
        if k == 0 {
            assert(keys[0].name@ == "run_id"@);
        } else if k == 1 {
            assert(keys[1].name@ == "plan"@);
        } else if k == 2 {
            assert(keys[2].name@ == "dir"@);
        } else if k == 3 {
            assert(keys[3].name@ == "graph"@);
        } else if k == 4 {
            assert(keys[4].name@ == "graph_run"@);
        } else if k == 5 {
            assert(keys[5].name@ == "node_graph"@);
        } else if k == 6 {
            assert(keys[6].name@ == "pr_author_graph"@);
        } else if k == 7 {
            assert(keys[7].name@ == "launcher"@);
        } else if k == 8 {
            assert(keys[8].name@ == "session"@);
        } else if k == 9 {
            assert(keys[9].name@ == "pid"@);
        } else if k == 10 {
            assert(keys[10].name@ == "host"@);
        } else if k == 11 {
            assert(keys[11].name@ == "started"@);
        } else if k == 12 {
            assert(keys[12].name@ == "started_at"@);
        } else if k == 13 {
            assert(keys[13].name@ == "heartbeat_interval"@);
        } else if k == 14 {
            assert(keys[14].name@ == "dag_sets"@);
        } else if k == 15 {
            assert(keys[15].name@ == "node_sets"@);
        } else if k == 16 {
            assert(keys[16].name@ == "adoptions"@);
        } else if k == 17 {
            assert(keys[17].name@ == "filters"@);
        }
    }
}

/// A launch that said nothing about its run's events.
pub open spec fn nothing_said() -> FiltersModel {
    FiltersModel { agentgraph: None, vcs: None, profiles: Seq::empty() }
}

/// A key that holds a text, or is left out where the text is empty and it may be.
spec fn wants_text(text: Seq<char>, required: bool, value: Option<Json>) -> bool {
    match value {
        Some(value) => value is Text && value->Text_0@ == text && (required || text.len() > 0),
        None => !required && text.len() == 0,
    }
}

/// A key that holds a list of texts, or is left out where there is none.
spec fn wants_texts(list: Seq<Seq<char>>, value: Option<Json>) -> bool {
    match value {
        Some(Json::List(written)) => record::only_texts(written@) && record::strings_of(written@)
            == list,
        Some(_) => false,
        None => list.len() == 0,
    }
}

/// What each key of a launch record holds once it is written.
spec fn launch_wants(model: LaunchRecordModel, k: int, value: Option<Json>) -> bool {
    if k == 0 {
        wants_text(model.run_id, true, value)
    } else if k == 1 {
        wants_text(model.plan, true, value)
    } else if k == 2 {
        wants_text(model.dir, false, value)
    } else if k == 3 {
        wants_text(model.graph, false, value)
    } else if k == 4 {
        wants_text(model.graph_run, false, value)
    } else if k == 5 {
        wants_text(model.node_graph, false, value)
    } else if k == 6 {
        wants_text(model.pr_author_graph, false, value)
    } else if k == 7 {
        wants_text(model.launcher, true, value)
    } else if k == 8 {
        wants_text(model.session, true, value)
    } else if k == 9 {
        value == Some(Json::Count(model.pid as u64))
    } else if k == 10 {
        wants_text(model.host, true, value)
    } else if k == 11 {
        wants_text(model.started, false, value)
    } else if k == 12 {
        wants_text(model.started_at, true, value)
    } else if k == 13 {
        value == Some(Json::Count(model.heartbeat_interval))
    } else if k == 14 {
        wants_texts(model.dag_sets, value)
    } else if k == 15 {
        wants_texts(model.node_sets, value)
    } else if k == 16 {
        value == Some(Json::Count(model.adoptions as u64))
    } else if k == 17 {
        filters_of(value) == model.filters && (honoured(model.filters) ==> are_filters(value))
            && (value is None <==> model.filters == nothing_said())
    } else {
        true
    }
}

proof fn lemma_launch_written(model: LaunchRecordModel, fields: Vec<(String, Json)>)
    requires
        record::keyed(launch_keys(), fields@),
        record::written(
            launch_keys(),
            fields@,
            18,
            |k: int, v: Option<Json>| launch_wants(model, k, v),
        ),
    ensures
        launch_record_of(Json::Object(fields)) == model,
        honoured(model.filters) ==> is_launch_record(Json::Object(fields)),
        field_in(fields@, "started"@) is None <==> model.started.len() == 0,
        field_in(fields@, "filters"@) is None <==> model.filters == nothing_said(),
{
    let keys = launch_keys();
    let want = |k: int, v: Option<Json>| launch_wants(model, k, v);
    assert forall|k: int| 0 <= k < 18 implies launch_wants(
        model,
        k,
        field_in(fields@, (#[trigger] keys[k]).name@),
    ) by {
        assert(want(k, field_in(fields@, keys[k].name@)));
    }
    assert(launch_wants(model, 0, field_in(fields@, keys[0].name@)));
    assert(record::key_holds(keys[0], fields@));
    assert(launch_wants(model, 1, field_in(fields@, keys[1].name@)));
    assert(record::key_holds(keys[1], fields@));
    assert(launch_wants(model, 2, field_in(fields@, keys[2].name@)));
    assert(record::key_holds(keys[2], fields@));
    assert(launch_wants(model, 3, field_in(fields@, keys[3].name@)));
    assert(record::key_holds(keys[3], fields@));
    assert(launch_wants(model, 4, field_in(fields@, keys[4].name@)));
    assert(record::key_holds(keys[4], fields@));
    assert(launch_wants(model, 5, field_in(fields@, keys[5].name@)));
    assert(record::key_holds(keys[5], fields@));
    assert(launch_wants(model, 6, field_in(fields@, keys[6].name@)));
    assert(record::key_holds(keys[6], fields@));
    assert(launch_wants(model, 7, field_in(fields@, keys[7].name@)));
    assert(record::key_holds(keys[7], fields@));
    assert(launch_wants(model, 8, field_in(fields@, keys[8].name@)));
    assert(record::key_holds(keys[8], fields@));
    assert(launch_wants(model, 9, field_in(fields@, keys[9].name@)));
    assert(record::key_holds(keys[9], fields@));
    assert(launch_wants(model, 10, field_in(fields@, keys[10].name@)));
    assert(record::key_holds(keys[10], fields@));
    assert(launch_wants(model, 11, field_in(fields@, keys[11].name@)));
    assert(record::key_holds(keys[11], fields@));
    assert(launch_wants(model, 12, field_in(fields@, keys[12].name@)));
    assert(record::key_holds(keys[12], fields@));
    assert(launch_wants(model, 13, field_in(fields@, keys[13].name@)));
    assert(record::key_holds(keys[13], fields@));
    assert(launch_wants(model, 14, field_in(fields@, keys[14].name@)));
    assert(record::key_holds(keys[14], fields@));
    assert(launch_wants(model, 15, field_in(fields@, keys[15].name@)));
    assert(record::key_holds(keys[15], fields@));
    assert(launch_wants(model, 16, field_in(fields@, keys[16].name@)));
    assert(record::key_holds(keys[16], fields@));
    assert(launch_wants(model, 17, field_in(fields@, keys[17].name@)));
    assert(record::key_holds(keys[17], fields@));
    assert forall|k: int| 0 <= k < keys.len() implies record::key_holds(
        #[trigger] keys[k],
        fields@,
    ) by {
        assert(launch_wants(model, k, field_in(fields@, keys[k].name@)));
    }
    let read = launch_record_of(Json::Object(fields));
    assert(read.run_id == model.run_id);
    assert(read.plan == model.plan);
    assert(read.dir == model.dir);
    assert(read.graph == model.graph);
    assert(read.graph_run == model.graph_run);
    assert(read.node_graph == model.node_graph);
    assert(read.pr_author_graph == model.pr_author_graph);
    assert(read.launcher == model.launcher);
    assert(read.session == model.session);
    assert(read.pid == model.pid);
    assert(read.host == model.host);
    assert(read.started == model.started);
    assert(read.started_at == model.started_at);
    assert(read.heartbeat_interval == model.heartbeat_interval);
    assert(read.dag_sets == model.dag_sets);
    assert(read.node_sets == model.node_sets);
    assert(read.adoptions == model.adoptions);
    assert(read.filters == model.filters);
}

impl LaunchRecord {
    /// The launch record a document is, or nothing where it is not one.
    pub fn read(document: &Json) -> (r: Option<LaunchRecord>)
        ensures
            match r {
                Some(read) => is_launch_record(*document) && read@ == launch_record_of(*document),
                None => !is_launch_record(*document),
            },
    {
        let keys = list_launch_keys();
        let fields: &Vec<(String, Json)> = match record::check(&keys, document) {
            Some(fields) => fields,
            None => {
                return None;
            },
        };
        let filters = match Filters::read(json::field(fields, "filters")) {
            Some(filters) => filters,
            None => {
                return None;
            },
        };
        proof {
            assert(record::key_holds(keys@[14], fields@));
            assert(record::key_holds(keys@[15], fields@));
        }
        Some(
            LaunchRecord {
                run_id: record::read_text(fields, "run_id"),
                plan: record::read_text(fields, "plan"),
                dir: record::read_text(fields, "dir"),
                graph: record::read_text(fields, "graph"),
                graph_run: record::read_text(fields, "graph_run"),
                node_graph: record::read_text(fields, "node_graph"),
                pr_author_graph: record::read_text(fields, "pr_author_graph"),
                launcher: record::read_text(fields, "launcher"),
                session: record::read_text(fields, "session"),
                pid: record::read_count(fields, "pid") as u32,
                host: record::read_text(fields, "host"),
                started: record::read_text(fields, "started"),
                started_at: record::read_text(fields, "started_at"),
                heartbeat_interval: record::read_count(fields, "heartbeat_interval"),
                dag_sets: record::read_texts(fields, "dag_sets"),
                node_sets: record::read_texts(fields, "node_sets"),
                adoptions: record::read_count(fields, "adoptions") as u32,
                filters,
            },
        )
    }

    /// This record as it is written: what it does not say is left out, so a build that
    /// predates a field still reads what this one wrote. What is written reads back as
    /// this record.
    pub fn to_json(&self) -> (r: Json)
        ensures
            launch_record_of(r) == self@,
            honoured(self@.filters) ==> is_launch_record(r),
            field_in(r->Object_0@, "started"@) is None <==> self.started@.len() == 0,
            field_in(r->Object_0@, "filters"@) is None <==> self@.filters == nothing_said(),
    {
        let mut fields: Vec<(String, Json)> = Vec::new();
        let ghost keys = launch_keys();
        let ghost model = self@;
        let ghost want = |k: int, v: Option<Json>| launch_wants(model, k, v);
        proof {
            let start = fields@;
            assert(forall|m: Seq<char>| #[trigger] field_in(start, m) is None);
            lemma_launch_distinct();
        }
        let value: Option<Json> = Some(Json::Text(self.run_id.clone()));
        record::put_next(
            &mut fields,
            Ghost(keys),
            Ghost(0),
            Ghost(want),
            "run_id",
            value,
        );
        let value: Option<Json> = Some(Json::Text(self.plan.clone()));
        record::put_next(
            &mut fields,
            Ghost(keys),
            Ghost(1),
            Ghost(want),
            "plan",
            value,
        );
        let value: Option<Json> = if self.dir.as_str().unicode_len() > 0 {
            Some(Json::Text(self.dir.clone()))
        } else {
            None
        };
        record::put_next(
            &mut fields,
            Ghost(keys),
            Ghost(2),
            Ghost(want),
            "dir",
            value,
        );
        let value: Option<Json> = if self.graph.as_str().unicode_len() > 0 {
            Some(Json::Text(self.graph.clone()))
        } else {
            None
        };
        record::put_next(
            &mut fields,
            Ghost(keys),
            Ghost(3),
            Ghost(want),
            "graph",
            value,
        );
        let value: Option<Json> = if self.graph_run.as_str().unicode_len() > 0 {
            Some(Json::Text(self.graph_run.clone()))
        } else {
            None
        };
        record::put_next(
            &mut fields,
            Ghost(keys),
            Ghost(4),
            Ghost(want),
            "graph_run",
            value,
        );
        let value: Option<Json> = if self.node_graph.as_str().unicode_len() > 0 {
            Some(Json::Text(self.node_graph.clone()))
        } else {
            None
        };
        record::put_next(
            &mut fields,
            Ghost(keys),
            Ghost(5),
            Ghost(want),
            "node_graph",
            value,
        );
        let value: Option<Json> = if self.pr_author_graph.as_str().unicode_len() > 0 {
            Some(Json::Text(self.pr_author_graph.clone()))
        } else {
            None
        };
        record::put_next(
            &mut fields,
            Ghost(keys),
            Ghost(6),
            Ghost(want),
            "pr_author_graph",
            value,
        );
        let value: Option<Json> = Some(Json::Text(self.launcher.clone()));
        record::put_next(
            &mut fields,
            Ghost(keys),
            Ghost(7),
            Ghost(want),
            "launcher",
            value,
        );
        let value: Option<Json> = Some(Json::Text(self.session.clone()));
        record::put_next(
            &mut fields,
            Ghost(keys),
            Ghost(8),
            Ghost(want),
            "session",
            value,
        );
        let value: Option<Json> = Some(Json::Count(self.pid as u64));
        record::put_next(
            &mut fields,
            Ghost(keys),
            Ghost(9),
            Ghost(want),
            "pid",
            value,
        );
        let value: Option<Json> = Some(Json::Text(self.host.clone()));
        record::put_next(
            &mut fields,
            Ghost(keys),
            Ghost(10),
            Ghost(want),
            "host",
            value,
        );
        let value: Option<Json> = if self.started.as_str().unicode_len() > 0 {
            Some(Json::Text(self.started.clone()))
        } else {
            None
        };
        record::put_next(
            &mut fields,
            Ghost(keys),
            Ghost(11),
            Ghost(want),
            "started",
            value,
        );
        let value: Option<Json> = Some(Json::Text(self.started_at.clone()));
        record::put_next(
            &mut fields,
            Ghost(keys),
            Ghost(12),
            Ghost(want),
            "started_at",
            value,
        );
        let value: Option<Json> = Some(Json::Count(self.heartbeat_interval));
        record::put_next(
            &mut fields,
            Ghost(keys),
            Ghost(13),
            Ghost(want),
            "heartbeat_interval",
            value,
        );
        assert(model.dag_sets.len() == self.dag_sets@.len());
        let value: Option<Json> = if self.dag_sets.len() > 0 {
            Some(record::write_texts(&self.dag_sets))
        } else {
            None
        };
        record::put_next(
            &mut fields,
            Ghost(keys),
            Ghost(14),
            Ghost(want),
            "dag_sets",
            value,
        );
        assert(model.node_sets.len() == self.node_sets@.len());
        let value: Option<Json> = if self.node_sets.len() > 0 {
            Some(record::write_texts(&self.node_sets))
        } else {
            None
        };
        record::put_next(
            &mut fields,
            Ghost(keys),
            Ghost(15),
            Ghost(want),
            "node_sets",
            value,
        );
        let value: Option<Json> = Some(Json::Count(self.adoptions as u64));
        record::put_next(
            &mut fields,
            Ghost(keys),
            Ghost(16),
            Ghost(want),
            "adoptions",
            value,
        );
        let value: Option<Json> = if !self.filters.is_empty() {
            Some(self.filters.to_json())
        } else {
            None
        };
        record::put_next(
            &mut fields,
            Ghost(keys),
            Ghost(17),
            Ghost(want),
            "filters",
            value,
        );
        proof {
            lemma_launch_written(model, fields);
        }
        Json::Object(fields)
    }


    /// Record that a process is now the run's driver: the three fields that name one are
    /// one fact, and a pid recorded without the stamp beside it is a pid no later reader
    /// may act on.
    pub fn driven_by_this_process(&mut self, pid: u32, host: String, started: Option<String>)
        ensures
            final(self)@ == (LaunchRecordModel {
                pid,
                host: host@,
                started: match started {
                    Some(started) => started@,
                    None => Seq::empty(),
                },
                ..old(self)@
            }),
    {
        self.pid = pid;
        self.host = host;
        self.started = match started {
            Some(started) => started,
            None => String::new(),
        };
        assert(self@ =~= (LaunchRecordModel {
            pid,
            host: self.host@,
            started: self.started@,
            ..old(self)@
        }));
    }

    /// The observer graph this run was launched with, when it was launched with one:
    /// an absent field is written as no field at all, and this is where that becomes an
    /// absence again.
    pub fn observer_graph(&self) -> (r: Option<&str>)
        ensures
            match r {
                Some(graph) => graph@ == self.graph@ && self.graph@.len() > 0,
                None => self.graph@.len() == 0,
            },
    {
        if self.graph.as_str().unicode_len() > 0 {
            Some(self.graph.as_str())
        } else {
            None
        }
    }

    /// The graph this run drafts change request bodies with, when it was launched with
    /// one.
    pub fn pr_author_graph(&self) -> (r: Option<&str>)
        ensures
            match r {
                Some(graph) => graph@ == self.pr_author_graph@ && self.pr_author_graph@.len() > 0,
                None => self.pr_author_graph@.len() == 0,
            },
    {
        if self.pr_author_graph.as_str().unicode_len() > 0 {
            Some(self.pr_author_graph.as_str())
        } else {
            None
        }
    }

    /// Whether `session` is the session that launched this run. An unknown launch is
    /// nobody's, the reader's among them.
    pub fn owned_by(&self, session: &str) -> (r: bool)
        ensures
            r == owned(self.session@, session@),
    {
        !text::same(self.session.as_str(), UNKNOWN_LAUNCHER) && text::same(
            self.session.as_str(),
            session,
        )
    }

    /// How a view names this run's owner, given the digest a foreign session is labelled
    /// by. A foreign session is never labelled by its own name.
    pub fn owner_label(&self, session: &str, digest: &str) -> (r: String)
        ensures
            r@ == owner_text(self.launcher@, self.session@, session@, digest@),
    {
        if text::same(self.session.as_str(), UNKNOWN_LAUNCHER) {
            "[unknown]".to_owned()
        } else if text::same(self.session.as_str(), session) {
            "[mine]".to_owned()
        } else {
            let mut out: String = String::from_str("[");
            out.append(self.launcher.as_str());
            out.append(":");
            out.append(digest);
            out.append("]");
            out
        }
    }
}

/// A run is the session's that launched it, and an unknown launch is nobody's.
pub open spec fn owned(launched: Seq<char>, session: Seq<char>) -> bool {
    launched != UNKNOWN_LAUNCHER@ && launched == session
}

/// How a view names a run's owner.
pub open spec fn owner_text(
    launcher: Seq<char>,
    launched: Seq<char>,
    session: Seq<char>,
    digest: Seq<char>,
) -> Seq<char> {
    if launched == UNKNOWN_LAUNCHER@ {
        "[unknown]"@
    } else if launched == session {
        "[mine]"@
    } else {
        "["@ + launcher + ":"@ + digest + "]"@
    }
}

/// A run with no provenance is nobody's, and never displays as the reader's.
pub proof fn law_an_unknown_launch_is_nobodys(
    launcher: Seq<char>,
    session: Seq<char>,
    digest: Seq<char>,
)
    ensures
        !owned(UNKNOWN_LAUNCHER@, session),
        owner_text(launcher, UNKNOWN_LAUNCHER@, session, digest) == "[unknown]"@,
{
}

/// Who holds a run's single-writer lock.
#[derive(Debug, PartialEq, Eq)]
pub struct LockRecord {
    /// The holding process.
    pub pid: u32,
    /// The host that pid is meaningful on.
    pub host: String,
    /// When it was taken.
    pub acquired_at: String,
    /// What the holder is doing, for the refusal message.
    pub verb: String,
    /// The holder's own process start token. The pid says which process; this says
    /// it is still that process. Empty where the host would not say.
    pub started: String,
}

/// A lock record as contracts speak of it.
#[verifier::ext_equal]
pub struct LockModel {
    pub pid: u32,
    pub host: Seq<char>,
    pub acquired_at: Seq<char>,
    pub verb: Seq<char>,
    pub started: Seq<char>,
}

impl View for LockRecord {
    type V = LockModel;

    open spec fn view(&self) -> LockModel {
        LockModel {
            pid: self.pid,
            host: self.host@,
            acquired_at: self.acquired_at@,
            verb: self.verb@,
            started: self.started@,
        }
    }
}

/// The keys of a lock record.
pub open spec fn lock_keys() -> Seq<Key> {
    seq![
        Key { name: "pid", kind: Kind::Small, required: true },
        Key { name: "host", kind: Kind::Text, required: true },
        Key { name: "acquired_at", kind: Kind::Text, required: true },
        Key { name: "verb", kind: Kind::Text, required: true },
        Key { name: "started", kind: Kind::Text, required: false },
    ]
}

fn list_lock_keys() -> (r: Vec<Key>)
    ensures
        r@ == lock_keys(),
{
    let r: Vec<Key> = vec![
        Key { name: "pid", kind: Kind::Small, required: true },
        Key { name: "host", kind: Kind::Text, required: true },
        Key { name: "acquired_at", kind: Kind::Text, required: true },
        Key { name: "verb", kind: Kind::Text, required: true },
        Key { name: "started", kind: Kind::Text, required: false },
    ];
    assert(r@ =~= lock_keys());
    r
}

/// The lock record a document holds.
pub open spec fn lock_of(document: Json) -> LockModel {
    let fields = document->Object_0@;
    LockModel {
        pid: record::count_or_zero(fields, "pid"@) as u32,
        host: record::text_or_empty(fields, "host"@),
        acquired_at: record::text_or_empty(fields, "acquired_at"@),
        verb: record::text_or_empty(fields, "verb"@),
        started: record::text_or_empty(fields, "started"@),
    }
}

impl LockRecord {
    /// The lock record a document is, or nothing where it is not one.
    pub fn read(document: &Json) -> (r: Option<LockRecord>)
        ensures
            match r {
                Some(held) => record::is_record(lock_keys(), *document) && held@
                    == lock_of(*document),
                None => !record::is_record(lock_keys(), *document),
            },
    {
        let keys = list_lock_keys();
        match record::check(&keys, document) {
            None => None,
            Some(fields) => Some(
                LockRecord {
                    pid: record::read_count(fields, "pid") as u32,
                    host: record::read_text(fields, "host"),
                    acquired_at: record::read_text(fields, "acquired_at"),
                    verb: record::read_text(fields, "verb"),
                    started: record::read_text(fields, "started"),
                },
            ),
        }
    }

    /// This record as it is written: an empty start token is left out. What is
    /// written reads back as this record.
    pub fn to_json(&self) -> (r: Json)
        ensures
            record::is_record(lock_keys(), r),
            lock_of(r) == self@,
            field_in(r->Object_0@, "started"@) is None <==> self.started@.len() == 0,
    {
        let mut fields: Vec<(String, Json)> = Vec::new();
        let ghost keys = lock_keys();
        let ghost start = fields@;
        proof {
            reveal_strlit("pid");
            reveal_strlit("host");
            reveal_strlit("acquired_at");
            reveal_strlit("verb");
            reveal_strlit("started");
            assert("pid"@.len() == 3 && "acquired_at"@.len() == 11 && "started"@.len() == 7);
            assert("host"@[0] == 'h' && "verb"@[0] == 'v');
            assert("host"@.len() == 4 && "verb"@.len() == 4);
            assert(forall|m: Seq<char>| #[trigger] field_in(start, m) is None);
        }
        record::put_key(&mut fields, Ghost(keys), Ghost(0), "pid", Json::Count(self.pid as u64));
        record::put_key(
            &mut fields,
            Ghost(keys),
            Ghost(1),
            "host",
            Json::Text(self.host.clone()),
        );
        record::put_key(
            &mut fields,
            Ghost(keys),
            Ghost(2),
            "acquired_at",
            Json::Text(self.acquired_at.clone()),
        );
        record::put_key(
            &mut fields,
            Ghost(keys),
            Ghost(3),
            "verb",
            Json::Text(self.verb.clone()),
        );
        if self.started.as_str().unicode_len() > 0 {
            record::put_key(
                &mut fields,
                Ghost(keys),
                Ghost(4),
                "started",
                Json::Text(self.started.clone()),
            );
        }
        proof {
            assert(field_in(fields@, "pid"@) == Some(Json::Count(self.pid as u64)));
            assert(record::key_holds(keys[0], fields@));
            assert(record::key_holds(keys[1], fields@));
            assert(record::key_holds(keys[2], fields@));
            assert(record::key_holds(keys[3], fields@));
            assert(record::key_holds(keys[4], fields@));
            assert(lock_of(Json::Object(fields)) =~= self@);
        }
        Json::Object(fields)
    }
}

impl LockRecord {
    /// The record a process writes into a run's lock: itself, where and since when it
    /// runs, and what it is doing. A host that will not say when the process started
    /// leaves no start token.
    pub fn of_holder(
        pid: u32,
        host: &str,
        now: &str,
        verb: &str,
        started: Option<String>,
    ) -> (r: Self)
        ensures
            r@ == (LockModel {
                pid,
                host: host@,
                acquired_at: now@,
                verb: verb@,
                started: match started {
                    Some(started) => started@,
                    None => Seq::empty(),
                },
            }),
    {
        let started: String = match started {
            Some(started) => started,
            None => String::new(),
        };
        LockRecord {
            pid,
            host: host.to_owned(),
            acquired_at: now.to_owned(),
            verb: verb.to_owned(),
            started,
        }
    }
}

/// What opening a run's lock for this process alone came to.
#[derive(Debug, PartialEq, Eq)]
pub enum LockOpened {
    /// Nobody held it.
    Created,
    /// It was there already.
    Held {
        /// What it says, where it can be read.
        record: Option<LockRecord>,
        /// Whether the process it names may be running on this host.
        may_be_live: bool,
    },
    /// It could not be opened.
    Failed(String),
}

/// What a process that asks for a run's lock does next.
#[derive(Debug, PartialEq, Eq)]
pub enum Taking {
    /// Write its record into the lock it created.
    Write,
    /// Write its record over the lock of a holder that is gone.
    Reclaim,
    /// Leave the run alone.
    Refuse(Error),
}

/// The run's ownership lock.
///
/// The process driving a run is the only writer of its graph, and this is what
/// makes that true across processes.
#[derive(Debug)]
pub struct OwnershipLock {
    /// The lock file.
    pub path: String,
    /// Whether this value still holds the lock.
    pub held: bool,
}

/// A holder is gone: it ran on this host, and this host can prove it does not run
/// any more.
pub open spec fn holder_gone(record: LockRecord, may_be_live: bool, host: Seq<char>) -> bool {
    record.host@ == host && !may_be_live
}

impl OwnershipLock {
    /// What a process that asks for a run's lock does next, given what opening it
    /// came to.
    ///
    /// A lock whose holder this host can prove is gone is reclaimed: a driver that
    /// died mid-run must not leave its run unwritable forever. An unreadable lock is
    /// still a claim: refusing is the safe reading.
    pub fn acquire(paths: &RunPaths, host: &str, opened: &LockOpened) -> (r: Taking)
        ensures
            match *opened {
                LockOpened::Created => r is Write,
                LockOpened::Failed(source) => r matches Taking::Refuse(
                    Error::Ledger { path, source: said },
                ) && path@ == joined(paths.dir@, "owner.lock"@) && said@ == source@,
                LockOpened::Held { record: Some(held), may_be_live } => if holder_gone(
                    held,
                    may_be_live,
                    host@,
                ) {
                    r is Reclaim
                } else {
                    r matches Taking::Refuse(Error::Locked { run, pid, host: on, verb }) && run@
                        == paths.run@ && pid == held.pid && on@ == held.host@ && verb@
                        == held.verb@
                },
                LockOpened::Held { record: None, .. } => r matches Taking::Refuse(
                    Error::Locked { run, pid, host: on, verb },
                ) && run@ == paths.run@ && pid == 0 && on@ == host@ && verb@
                    == "an unreadable lock"@,
            },
    {
        match opened {
            LockOpened::Created => Taking::Write,
            LockOpened::Failed(source) => Taking::Refuse(
                Error::Ledger { path: paths.lock(), source: source.clone() },
            ),
            LockOpened::Held { record: Some(held), may_be_live } => {
                if text::same(held.host.as_str(), host) && !*may_be_live {
                    Taking::Reclaim
                } else {
                    Taking::Refuse(
                        Error::Locked {
                            run: paths.run.clone(),
                            pid: held.pid,
                            host: held.host.clone(),
                            verb: held.verb.clone(),
                        },
                    )
                }
            },
            LockOpened::Held { record: None, .. } => Taking::Refuse(
                Error::Locked {
                    run: paths.run.clone(),
                    pid: 0,
                    host: host.to_owned(),
                    verb: "an unreadable lock".to_owned(),
                },
            ),
        }
    }

    /// The lock, once this process's record is in it.
    pub fn taken(paths: &RunPaths) -> (r: OwnershipLock)
        ensures
            r.path@ == joined(paths.dir@, "owner.lock"@),
            r.held,
    {
        OwnershipLock { path: paths.lock(), held: true }
    }

    /// Give the lock up: the file to remove, or nothing where it was given up
    /// already. A lock is released once.
    pub fn release(&mut self) -> (r: Option<String>)
        ensures
            !final(self).held,
            final(self).path == old(self).path,
            r == (if old(self).held {
                Some(old(self).path)
            } else {
                None
            }),
    {
        if self.held {
            self.held = false;
            Some(self.path.clone())
        } else {
            None
        }
    }
}

/// One live dispatch's claim on the process it is running in.
///
/// The launch record and the ownership lock name a driver, and a driver is not the
/// work: when it dies the work it started outlives it. Every field is required, the
/// stamp included: a record that cannot prove its own pid is an unusable one.
#[derive(Debug, PartialEq, Eq)]
pub struct DispatchRecord {
    /// The node this dispatch is running.
    pub node: String,
    /// The process the work is running in.
    pub pid: u32,
    /// The host that pid is meaningful on.
    pub host: String,
    /// When the dispatch was recorded.
    pub dispatched_at: String,
    /// That process's own start token.
    pub started: String,
}

/// A dispatch record as contracts speak of it.
#[verifier::ext_equal]
pub struct DispatchModel {
    pub node: Seq<char>,
    pub pid: u32,
    pub host: Seq<char>,
    pub dispatched_at: Seq<char>,
    pub started: Seq<char>,
}

impl View for DispatchRecord {
    type V = DispatchModel;

    open spec fn view(&self) -> DispatchModel {
        DispatchModel {
            node: self.node@,
            pid: self.pid,
            host: self.host@,
            dispatched_at: self.dispatched_at@,
            started: self.started@,
        }
    }
}

/// The keys of a dispatch record.
pub open spec fn dispatch_keys() -> Seq<Key> {
    seq![
        Key { name: "node", kind: Kind::Text, required: true },
        Key { name: "pid", kind: Kind::Small, required: true },
        Key { name: "host", kind: Kind::Text, required: true },
        Key { name: "dispatched_at", kind: Kind::Text, required: true },
        Key { name: "started", kind: Kind::Text, required: true },
    ]
}

fn list_dispatch_keys() -> (r: Vec<Key>)
    ensures
        r@ == dispatch_keys(),
{
    let r: Vec<Key> = vec![
        Key { name: "node", kind: Kind::Text, required: true },
        Key { name: "pid", kind: Kind::Small, required: true },
        Key { name: "host", kind: Kind::Text, required: true },
        Key { name: "dispatched_at", kind: Kind::Text, required: true },
        Key { name: "started", kind: Kind::Text, required: true },
    ];
    assert(r@ =~= dispatch_keys());
    r
}

/// The dispatch record a document holds.
pub open spec fn dispatch_of(document: Json) -> DispatchModel {
    let fields = document->Object_0@;
    DispatchModel {
        node: record::text_or_empty(fields, "node"@),
        pid: record::count_or_zero(fields, "pid"@) as u32,
        host: record::text_or_empty(fields, "host"@),
        dispatched_at: record::text_or_empty(fields, "dispatched_at"@),
        started: record::text_or_empty(fields, "started"@),
    }
}

impl DispatchRecord {
    /// Whether this entry is one a reader may act on: an empty stamp proves nothing.
    pub fn is_usable(&self) -> (r: bool)
        ensures
            r == !blank(self.started@),
    {
        !text::is_blank(self.started.as_str())
    }

    /// Whether two entries record the same thing.
    pub fn same(&self, other: &DispatchRecord) -> (r: bool)
        ensures
            r == (self@ == other@),
    {
        text::same(self.node.as_str(), other.node.as_str()) && self.pid == other.pid && text::same(
            self.host.as_str(),
            other.host.as_str(),
        ) && text::same(self.dispatched_at.as_str(), other.dispatched_at.as_str()) && text::same(
            self.started.as_str(),
            other.started.as_str(),
        )
    }

    /// The dispatch record a document is, or nothing where it is not one.
    pub fn read(document: &Json) -> (r: Option<DispatchRecord>)
        ensures
            match r {
                Some(held) => record::is_record(dispatch_keys(), *document) && held@
                    == dispatch_of(*document),
                None => !record::is_record(dispatch_keys(), *document),
            },
    {
        let keys = list_dispatch_keys();
        match record::check(&keys, document) {
            None => None,
            Some(fields) => Some(
                DispatchRecord {
                    node: record::read_text(fields, "node"),
                    pid: record::read_count(fields, "pid") as u32,
                    host: record::read_text(fields, "host"),
                    dispatched_at: record::read_text(fields, "dispatched_at"),
                    started: record::read_text(fields, "started"),
                },
            ),
        }
    }

    /// This record as it is written. What is written reads back as this record.
    pub fn to_json(&self) -> (r: Json)
        ensures
            record::is_record(dispatch_keys(), r),
            dispatch_of(r) == self@,
    {
        let mut fields: Vec<(String, Json)> = Vec::new();
        let ghost keys = dispatch_keys();
        let ghost start = fields@;
        proof {
            reveal_strlit("node");
            reveal_strlit("pid");
            reveal_strlit("host");
            reveal_strlit("dispatched_at");
            reveal_strlit("started");
            assert("pid"@.len() == 3 && "dispatched_at"@.len() == 13 && "started"@.len() == 7);
            assert("host"@[0] == 'h' && "node"@[0] == 'n');
            assert("host"@.len() == 4 && "node"@.len() == 4);
            assert(forall|m: Seq<char>| #[trigger] field_in(start, m) is None);
        }
        record::put_key(
            &mut fields,
            Ghost(keys),
            Ghost(0),
            "node",
            Json::Text(self.node.clone()),
        );
        record::put_key(&mut fields, Ghost(keys), Ghost(1), "pid", Json::Count(self.pid as u64));
        record::put_key(
            &mut fields,
            Ghost(keys),
            Ghost(2),
            "host",
            Json::Text(self.host.clone()),
        );
        record::put_key(
            &mut fields,
            Ghost(keys),
            Ghost(3),
            "dispatched_at",
            Json::Text(self.dispatched_at.clone()),
        );
        record::put_key(
            &mut fields,
            Ghost(keys),
            Ghost(4),
            "started",
            Json::Text(self.started.clone()),
        );
        proof {
            assert(record::key_holds(keys[0], fields@));
            assert(field_in(fields@, "pid"@) == Some(Json::Count(self.pid as u64)));
            assert(record::key_holds(keys[1], fields@));
            assert(record::key_holds(keys[2], fields@));
            assert(record::key_holds(keys[3], fields@));
            assert(record::key_holds(keys[4], fields@));
            assert(dispatch_of(Json::Object(fields)) =~= self@);
        }
        Json::Object(fields)
    }
}

/// A dispatch's entry in the registry.
#[derive(Debug)]
pub struct DispatchClaim {
    /// The entry.
    pub path: String,
    /// What this claim recorded, so it removes its own entry and never a later
    /// dispatch's.
    pub started: String,
}

impl DispatchClaim {
    /// Whether the entry a registry holds is this claim's own, and so is removed
    /// when the dispatch ends.
    pub fn owns(&self, held: Option<&DispatchRecord>) -> (r: bool)
        ensures
            r == (held matches Some(held) && held.started@ == self.started@),
    {
        match held {
            Some(held) => text::same(held.started.as_str(), self.started.as_str()),
            None => false,
        }
    }
}

/// Where a run says its work cannot be recorded.
pub open spec fn unstamped(run: Seq<char>, node: Seq<char>, pid: u32) -> Seq<char> {
    "run '"@ + run + "': node '"@ + node + "': this host will not say when pid "@ + dec(pid as nat)
        + " started, so its dispatch cannot be recorded as running there and nothing could prove that pid is still this run's work"@
}

/// Where a run cannot say where its work is.
pub open spec fn unreadable_claim(
    run: Seq<char>,
    node: Seq<char>,
    pid: u32,
    path: Seq<char>,
) -> Seq<char> {
    "run '"@ + run + "': node '"@ + node + "': its dispatch in pid "@ + dec(pid as nat)
        + " was written to "@ + path
        + " and did not read back as itself, so the run cannot say where that work is"@
}

/// The entry that records that this run is running `node` in `pid`, or the refusal.
///
/// A trust boundary: a dispatch this run cannot register is a process nothing will
/// ever find. A host that will not say when `pid` started, or says nothing, leaves
/// nothing that could prove the pid is still this process: that is refused rather than
/// recorded, so every entry is one a reader may act on.
pub fn claim_dispatch(
    paths: &RunPaths,
    node: &str,
    pid: u32,
    host: &str,
    now: &str,
    started: Option<String>,
) -> (r: Result<DispatchRecord, Error>)
    ensures
        match started {
            Some(started) if !blank(started@) => r matches Ok(record) && record@ == (
            DispatchModel {
                node: node@,
                pid,
                host: host@,
                dispatched_at: now@,
                started: started@,
            }),
            _ => r matches Err(Error::Refused(why)) && why@ == unstamped(
                paths.run@,
                node@,
                pid,
            ),
        },
{
    match started {
        Some(started) if !text::is_blank(started.as_str()) => Ok(
            DispatchRecord {
                node: node.to_owned(),
                pid,
                host: host.to_owned(),
                dispatched_at: now.to_owned(),
                started,
            },
        ),
        _ => {
            let mut why: String = String::from_str("run '");
            why.append(paths.run.as_str());
            why.append("': node '");
            why.append(node);
            why.append("': this host will not say when pid ");
            text::push_dec(&mut why, pid as u64);
            why.append(
                " started, so its dispatch cannot be recorded as running there and nothing could prove that pid is still this run's work",
            );
            Err(Error::Refused(why))
        },
    }
}

/// The claim, once what was written has been read back: what this promises its
/// caller is not that a write returned but that the registry now holds an entry its
/// reader will act on.
pub fn confirm_claim(
    paths: &RunPaths,
    claim: u64,
    record: &DispatchRecord,
    read: Option<&DispatchRecord>,
) -> (r: Result<DispatchClaim, Error>)
    ensures
        match read {
            Some(held) if held@ == record@ => r matches Ok(made) && made.path@ == dispatch_path(
                paths.dir@,
                record.pid,
                claim,
            ) && made.started@ == record.started@,
            _ => r matches Err(Error::Refused(why)) && why@ == unreadable_claim(
                paths.run@,
                record.node@,
                record.pid,
                dispatch_path(paths.dir@, record.pid, claim),
            ),
        },
{
    let path = paths.dispatch(record.pid, claim);
    let same: bool = match read {
        Some(held) => held.same(record),
        None => false,
    };
    if same {
        return Ok(DispatchClaim { path, started: record.started.clone() });
    }
    let mut why: String = String::from_str("run '");
    why.append(paths.run.as_str());
    why.append("': node '");
    why.append(record.node.as_str());
    why.append("': its dispatch in pid ");
    text::push_dec(&mut why, record.pid as u64);
    why.append(" was written to ");
    why.append(path.as_str());
    why.append(" and did not read back as itself, so the run cannot say where that work is");
    Err(Error::Refused(why))
}

/// What reading one entry of the registry came to.
#[derive(Debug, PartialEq, Eq)]
pub enum Registered {
    /// The host would not list it.
    Unlisted(String),
    /// It could not be read, and why.
    Unread(Error),
    /// What it holds.
    Read {
        /// Where it is.
        path: String,
        /// What it says.
        record: DispatchRecord,
    },
}

/// What a dispatch that carries no start token is refused with.
pub open spec fn tokenless(path: Seq<char>, pid: u32) -> Seq<char> {
    path + ": the dispatch it records carries no start token, so nothing says pid "@ + dec(
        pid as nat,
    ) + " is still this run's work"@
}

/// An entry of the registry that is refused.
pub open spec fn is_refused(entry: Registered) -> bool {
    match entry {
        Registered::Unlisted(_) => true,
        Registered::Unread(_) => true,
        Registered::Read { record, .. } => blank(record.started@),
    }
}

/// An entry of the registry is refused with this: one the host would not list as the
/// registry's own failure, one that could not be read with what reading it came to, and
/// one whose start token is blank as a record this build does not accept.
pub open spec fn refused_as(registry: Seq<char>, entry: Registered, error: Error) -> bool {
    match entry {
        Registered::Unlisted(said) => error matches Error::Ledger { path, source } && path@
            == registry && source@ == said@,
        Registered::Unread(why) => error == why,
        Registered::Read { path, record } => error matches Error::Invalid(why) && why@
            == tokenless(path@, record.pid),
    }
}

/// The first entry of the registry that is refused.
pub open spec fn first_refused(entries: Seq<Registered>, from: int) -> Option<int>
    decreases entries.len() - from,
{
    if from < 0 || from >= entries.len() {
        None
    } else if is_refused(entries[from]) {
        Some(from)
    } else {
        first_refused(entries, from + 1)
    }
}

/// A record put into a list before the first whose pid is greater.
pub open spec fn insert_record(list: Seq<DispatchRecord>, record: DispatchRecord) -> Seq<
    DispatchRecord,
>
    decreases list.len(),
{
    if list.len() == 0 {
        seq![record]
    } else if record.pid < list[0].pid {
        seq![record] + list
    } else {
        seq![list[0]] + insert_record(list.skip(1), record)
    }
}

/// The records of the registry, in pid order.
pub open spec fn by_pid(entries: Seq<Registered>) -> Seq<DispatchRecord>
    decreases entries.len(),
{
    if entries.len() == 0 {
        Seq::empty()
    } else {
        insert_record(by_pid(entries.drop_last()), entries.last()->record)
    }
}

fn add_record(list: &mut Vec<DispatchRecord>, record: DispatchRecord)
    ensures
        final(list)@ == insert_record(old(list)@, record),
{
    let ghost before = list@;
    let mut i: usize = 0;
    assert(before.skip(0) =~= before);
    assert(before.take(0) + insert_record(before, record) =~= insert_record(before, record));
    while i < list.len() && !(record.pid < list[i].pid)
        invariant
            list@ == before,
            i <= list@.len(),
            before.take(i as int) + insert_record(before.skip(i as int), record) == insert_record(
                before,
                record,
            ),
        decreases list@.len() - i,
    {
        proof {
            let rest = before.skip(i as int);
            assert(rest[0] == before[i as int]);
            assert(rest.skip(1) =~= before.skip(i + 1));
            assert(before.take(i as int) + insert_record(rest, record) =~= before.take(i + 1)
                + insert_record(before.skip(i + 1), record));
        }
        i += 1;
    }
    proof {
        let rest = before.skip(i as int);
        if i < before.len() {
            assert(rest[0] == before[i as int]);
        }
        assert(before.take(i as int) + insert_record(rest, record) =~= before.insert(
            i as int,
            record,
        ));
    }
    list.insert(i, record);
}

/// Every dispatch this run has recorded, in pid order — or why this build cannot
/// say.
///
/// Errors are preserved, never flattened into an empty registry: "nothing is
/// registered" and "what is registered cannot be read" are opposite answers for the
/// caller that acts on them.
#[verifier::loop_isolation(false)]
pub fn dispatches_of(paths: &RunPaths, listed: Result<Vec<Registered>, String>) -> (r: Result<
    Vec<DispatchRecord>,
    Error,
>)
    ensures
        ({
            let registry = joined(paths.dir@, "dispatches"@);
            match listed {
                Err(source) => r matches Err(Error::Ledger { path, source: said }) && path@
                    == registry && said@ == source@,
                Ok(entries) => match first_refused(entries@, 0) {
                    None => r matches Ok(found) && found@ == by_pid(entries@),
                    Some(i) => r matches Err(error) && refused_as(registry, entries@[i], error),
                },
            }
        }),
{
    let registry = paths.dispatches();
    let entries: Vec<Registered> = match listed {
        Ok(entries) => entries,
        Err(source) => {
            return Err(Error::Ledger { path: registry, source });
        },
    };
    let ghost all = entries@;
    let mut found: Vec<DispatchRecord> = Vec::new();
    assert(by_pid(all.take(0)) =~= Seq::empty());
    for entry in it: entries.into_iter()
        invariant
            it.seq() == all,
            registry@ == joined(paths.dir@, "dispatches"@),
            first_refused(all, 0) == first_refused(all, it.index() as int),
            found@ == by_pid(all.take(it.index() as int)),
    {
        let ghost i = it.index() as int;
        assert(entry == all[i]);
        proof {
            assert(all.take(i + 1).drop_last() =~= all.take(i));
            assert(all.take(i + 1).last() == all[i]);
        }
        match entry {
            Registered::Unlisted(source) => {
                return Err(Error::Ledger { path: registry, source });
            },
            Registered::Unread(error) => {
                return Err(error);
            },
            Registered::Read { path, record } => {
                if !record.is_usable() {
                    let mut why: String = path.clone();
                    why.append(
                        ": the dispatch it records carries no start token, so nothing says pid ",
                    );
                    text::push_dec(&mut why, record.pid as u64);
                    why.append(" is still this run's work");
                    return Err(Error::Invalid(why));
                }
                add_record(&mut found, record);
            },
        }
    }
    assert(all.take(all.len() as int) =~= all);
    Ok(found)
}

proof fn lemma_insert_record_len(list: Seq<DispatchRecord>, record: DispatchRecord)
    ensures
        insert_record(list, record).len() == list.len() + 1,
    decreases list.len(),
{
    if list.len() > 0 && !(record.pid < list[0].pid) {
        lemma_insert_record_len(list.skip(1), record);
    }
}

/// A registry that reads as empty is one with no entry: what cannot be read is never
/// read as a run with nothing running.
pub proof fn law_an_empty_registry_holds_nothing(entries: Seq<Registered>)
    ensures
        by_pid(entries).len() == entries.len(),
    decreases entries.len(),
{
    if entries.len() > 0 {
        law_an_empty_registry_holds_nothing(entries.drop_last());
        lemma_insert_record_len(by_pid(entries.drop_last()), entries.last()->record);
    }
}

/// One line of an append-only file, with its terminator: the two are written as one,
/// so that another appender cannot land between them.
pub fn framed(line: &str) -> (r: String)
    ensures
        r@ == line@ + "\n"@,
{
    let mut out: String = line.to_owned();
    out.append("\n");
    out
}

/// The lines that are not blank.
pub open spec fn kept_lines(lines: Seq<Seq<char>>) -> Seq<Seq<char>>
    decreases lines.len(),
{
    if lines.len() == 0 {
        Seq::empty()
    } else if blank(lines.last()) {
        kept_lines(lines.drop_last())
    } else {
        kept_lines(lines.drop_last()).push(lines.last())
    }
}

/// Every line of an append-only file that is not blank, or nothing when the file
/// does not exist yet.
pub fn read_lines(contents: Option<&str>) -> (r: Vec<String>)
    ensures
        texts(r@) == (match contents {
            Some(contents) => kept_lines(text::lines(contents@)),
            None => Seq::empty(),
        }),
{
    let mut out: Vec<String> = Vec::new();
    let contents: &str = match contents {
        Some(contents) => contents,
        None => {
            assert(texts(out@) =~= Seq::empty());
            return out;
        },
    };
    let list = text::lines_of(contents);
    let ghost model = texts(list@);
    let mut i: usize = 0;
    assert(texts(out@) =~= kept_lines(model.take(0)));
    while i < list.len()
        invariant
            model == texts(list@),
            i <= list@.len(),
            texts(out@) == kept_lines(model.take(i as int)),
        decreases list@.len() - i,
    {
        proof {
            assert(model.take(i + 1).drop_last() =~= model.take(i as int));
            assert(model.take(i + 1).last() == list@[i as int]@);
        }
        if !text::is_blank(list[i].as_str()) {
            let ghost was = texts(out@);
            out.push(list[i].clone());
            assert(texts(out@) =~= was.push(list@[i as int]@));
        }
        i += 1;
    }
    assert(model.take(model.len() as int) =~= model);
    out
}

/// One line of an append-only file, and where it is.
#[derive(Debug, PartialEq, Eq)]
pub struct Record {
    /// What it says, with what is not text replaced.
    pub text: String,
    /// The 1-based line it is on.
    pub line: usize,
    /// Where in the file that line begins.
    pub offset: u64,
    /// How many bytes it has, its terminator not among them.
    pub bytes: u64,
    /// Whether its terminator landed.
    pub terminated: bool,
}

/// A fragment an append healed out of a file.
#[derive(Debug, Clone, Copy, PartialEq, Eq, Structural)]
pub struct TornTail {
    /// Where in the file it began.
    pub offset: u64,
    /// How many bytes it had.
    pub bytes: u64,
}

/// A line of an append-only file, as contracts speak of it.
#[verifier::ext_equal]
pub struct RecordModel {
    pub text: Seq<char>,
    pub line: int,
    pub offset: int,
    pub bytes: int,
    pub terminated: bool,
}

impl View for Record {
    type V = RecordModel;

    open spec fn view(&self) -> RecordModel {
        RecordModel {
            text: self.text@,
            line: self.line as int,
            offset: self.offset as int,
            bytes: self.bytes as int,
            terminated: self.terminated,
        }
    }
}

/// What `String::from_utf8_lossy` reads bytes as.
pub uninterp spec fn lossy_text(bytes: Seq<u8>) -> Seq<char>;

/// `String::from_utf8_lossy` of a part of some bytes.
#[verifier::external_body]
pub(crate) fn read_lossy(bytes: &Vec<u8>, from: usize, to: usize) -> (r: String)
    requires
        from <= to <= bytes@.len(),
    ensures
        r@ == lossy_text(bytes@.subrange(from as int, to as int)),
{
    String::from_utf8_lossy(&bytes[from..to]).into_owned()
}

/// Where the line that starts at a position ends.
pub open spec fn record_end(bytes: Seq<u8>, from: int) -> int
    decreases bytes.len() - from,
{
    if from >= bytes.len() {
        bytes.len() as int
    } else if bytes[from] == 10 {
        from
    } else {
        record_end(bytes, from + 1)
    }
}

/// The lines of a file from a position on: each ends at its terminator, or — for the
/// last — where the file does.
pub open spec fn records_from(bytes: Seq<u8>, from: int, line: int) -> Seq<RecordModel>
    decreases bytes.len() - from,
{
    if from < 0 || from >= bytes.len() {
        Seq::empty()
    } else {
        let end = record_end(bytes, from);
        let one = RecordModel {
            text: lossy_text(bytes.subrange(from, end)),
            line,
            offset: from,
            bytes: end - from,
            terminated: end < bytes.len(),
        };
        if end < from || end >= bytes.len() {
            seq![one]
        } else {
            seq![one] + records_from(bytes, end + 1, line + 1)
        }
    }
}

/// The lines, as contracts speak of them.
pub open spec fn record_models(list: Seq<Record>) -> Seq<RecordModel> {
    list.map_values(|r: Record| r@)
}

/// Every line of an append-only file, and where each is.
pub fn read_records(bytes: &Vec<u8>) -> (r: Vec<Record>)
    ensures
        record_models(r@) == records_from(bytes@, 0, 1),
{
    let n: usize = bytes.len();
    let mut out: Vec<Record> = Vec::new();
    let mut from: usize = 0;
    assert(record_models(out@) + records_from(bytes@, 0, 1) =~= records_from(bytes@, 0, 1));
    while from < n
        invariant
            n == bytes@.len(),
            out@.len() <= from,
            record_models(out@) + records_from(bytes@, from as int, out@.len() as int + 1)
                == records_from(bytes@, 0, 1),
        decreases n - from,
    {
        let mut end: usize = from;
        while end < n && bytes[end] != 10
            invariant
                n == bytes@.len(),
                from <= end <= n,
                record_end(bytes@, from as int) == record_end(bytes@, end as int),
            decreases n - end,
        {
            end += 1;
        }
        let ghost line = out@.len() as int + 1;
        let ghost was = record_models(out@);
        let ghost rest = records_from(bytes@, from as int, line);
        let one = Record {
            text: read_lossy(bytes, from, end),
            line: out.len() + 1,
            offset: from as u64,
            bytes: (end - from) as u64,
            terminated: end < n,
        };
        let ghost added = one@;
        out.push(one);
        proof {
            assert(record_models(out@) =~= was.push(added));
            let next = records_from(bytes@, end + 1, line + 1);
            assert(rest =~= seq![added] + next);
            assert(was + rest =~= record_models(out@) + next);
            if end >= n {
                assert(next =~= Seq::empty());
                assert(records_from(bytes@, n as int, line + 1) =~= Seq::empty());
            }
        }
        from = if end < n {
            end + 1
        } else {
            n
        };
    }
    assert(records_from(bytes@, from as int, out@.len() as int + 1) =~= Seq::empty());
    assert(record_models(out@) + Seq::<RecordModel>::empty() =~= record_models(out@));
    out
}

/// A file ends in a fragment: bytes after its last terminator, or all of them where
/// it has none. The fragment starts just after that terminator and runs to the end.
pub open spec fn torn(bytes: Seq<u8>, offset: int, length: int) -> bool {
    &&& length > 0
    &&& offset + length == bytes.len()
    &&& offset == 0 || (offset > 0 && bytes[offset - 1] == 10)
    &&& forall|i: int| offset <= i < bytes.len() ==> #[trigger] bytes[i] != 10
}

/// What an append has to cut away before it writes: the fragment a writer that died
/// mid-line left behind, or nothing where the file is empty or its last line ended.
pub fn heal(bytes: &Vec<u8>) -> (r: Option<TornTail>)
    ensures
        r is None <==> bytes@.len() == 0 || bytes@.last() == 10,
        match r {
            None => true,
            Some(tail) => torn(bytes@, tail.offset as int, tail.bytes as int),
        },
{
    let n: usize = bytes.len();
    let mut from: usize = n;
    while from > 0 && bytes[from - 1] != 10
        invariant
            n == bytes@.len(),
            from <= n,
            forall|i: int| from <= i < n ==> #[trigger] bytes@[i] != 10,
        decreases from,
    {
        from -= 1;
    }
    if from == n {
        None
    } else {
        Some(TornTail { offset: from as u64, bytes: (n - from) as u64 })
    }
}

/// A file whose every line ended: what healing leaves, and what an append starts
/// from.
pub open spec fn ended(bytes: Seq<u8>) -> bool {
    bytes.len() == 0 || bytes.last() == 10
}

proof fn lemma_end_in_front(front: Seq<u8>, back: Seq<u8>, from: int)
    requires
        0 <= from < front.len(),
        front.last() == 10,
    ensures
        record_end(front + back, from) == record_end(front, from),
        from <= record_end(front, from) < front.len(),
    decreases front.len() - from,
{
    assert((front + back)[from] == front[from]);
    if front[from] != 10 {
        lemma_end_in_front(front, back, from + 1);
    }
}

proof fn lemma_end_of_line(front: Seq<u8>, line: Seq<u8>, k: int)
    requires
        0 <= k <= line.len(),
        forall|i: int| 0 <= i < line.len() ==> #[trigger] line[i] != 10,
    ensures
        record_end(front + line.push(10), front.len() + k) == front.len() + line.len(),
    decreases line.len() - k,
{
    let all = front + line.push(10);
    assert(all[front.len() + k] == line.push(10)[k]);
    if k < line.len() {
        assert(line.push(10)[k] == line[k]);
        lemma_end_of_line(front, line, k + 1);
    }
}

proof fn lemma_records_in_front(bytes: Seq<u8>, line: Seq<u8>, from: int, number: int)
    requires
        ended(bytes),
        forall|i: int| 0 <= i < line.len() ==> #[trigger] line[i] != 10,
        0 <= from <= bytes.len(),
    ensures
        records_from(bytes + line.push(10), from, number) == records_from(
            bytes,
            from,
            number,
        ).push(
            RecordModel {
                text: lossy_text(line),
                line: number + records_from(bytes, from, number).len(),
                offset: bytes.len() as int,
                bytes: line.len() as int,
                terminated: true,
            },
        ),
    decreases bytes.len() - from,
{
    let all = bytes + line.push(10);
    let before = records_from(bytes, from, number);
    if from < bytes.len() {
        lemma_end_in_front(bytes, line.push(10), from);
        let end = record_end(bytes, from);
        lemma_records_in_front(bytes, line, end + 1, number + 1);
        let rest = records_from(bytes, end + 1, number + 1);
        assert(all.subrange(from, end) =~= bytes.subrange(from, end));
        assert(records_from(all, from, number) =~= before.push(
            RecordModel {
                text: lossy_text(line),
                line: number + before.len(),
                offset: bytes.len() as int,
                bytes: line.len() as int,
                terminated: true,
            },
        ));
    } else {
        lemma_end_of_line(bytes, line, 0);
        let end: int = (bytes.len() + line.len()) as int;
        assert(all.subrange(from, end) =~= line);
        assert(records_from(all, end + 1, number + 1) =~= Seq::empty());
        assert(before =~= Seq::empty());
        assert(records_from(all, from, number) =~= before.push(
            RecordModel {
                text: lossy_text(line),
                line: number,
                offset: bytes.len() as int,
                bytes: line.len() as int,
                terminated: true,
            },
        ));
    }
}

/// What healing leaves of a torn file is whole: its last line ended, so that a
/// second append finds nothing left to cut away.
pub proof fn law_healing_leaves_no_fragment(bytes: Seq<u8>, offset: int, length: int)
    requires
        torn(bytes, offset, length),
    ensures
        ended(bytes.take(offset)),
{
}

/// A record appended to a file whose every line ended is read back whole after
/// every record that was there, and changes none of them. One appended onto a
/// fragment would be glued to it, which is why the fragment is cut away first.
pub proof fn law_an_append_adds_one_whole_record(bytes: Seq<u8>, line: Seq<u8>)
    requires
        ended(bytes),
        forall|i: int| 0 <= i < line.len() ==> #[trigger] line[i] != 10,
    ensures
        records_from(bytes + line.push(10), 0, 1) == records_from(bytes, 0, 1).push(
            RecordModel {
                text: lossy_text(line),
                line: 1int + records_from(bytes, 0, 1).len(),
                offset: bytes.len() as int,
                bytes: line.len() as int,
                terminated: true,
            },
        ),
{
    lemma_records_in_front(bytes, line, 0, 1);
}

/// The keys of a healed fragment's record.
pub open spec fn torn_keys() -> Seq<Key> {
    seq![
        Key { name: "offset", kind: Kind::Count, required: true },
        Key { name: "bytes", kind: Kind::Count, required: true },
    ]
}

fn list_torn_keys() -> (r: Vec<Key>)
    ensures
        r@ == torn_keys(),
{
    let r: Vec<Key> = vec![
        Key { name: "offset", kind: Kind::Count, required: true },
        Key { name: "bytes", kind: Kind::Count, required: true },
    ];
    assert(r@ =~= torn_keys());
    r
}

/// The healed fragment a document records.
pub open spec fn torn_of(document: Json) -> TornTail {
    let fields = document->Object_0@;
    TornTail {
        offset: record::count_or_zero(fields, "offset"@),
        bytes: record::count_or_zero(fields, "bytes"@),
    }
}

impl TornTail {
    /// The healed fragment's record a document is, or nothing where it is not one.
    pub fn read(document: &Json) -> (r: Option<TornTail>)
        ensures
            match r {
                Some(tail) => record::is_record(torn_keys(), *document) && tail
                    == torn_of(*document),
                None => !record::is_record(torn_keys(), *document),
            },
    {
        let keys = list_torn_keys();
        match record::check(&keys, document) {
            None => None,
            Some(fields) => Some(
                TornTail {
                    offset: record::read_count(fields, "offset"),
                    bytes: record::read_count(fields, "bytes"),
                },
            ),
        }
    }

    /// This fragment as it is recorded beside the file it was cut from. What is
    /// written reads back as this fragment.
    pub fn to_json(&self) -> (r: Json)
        ensures
            record::is_record(torn_keys(), r),
            torn_of(r) == *self,
    {
        let mut fields: Vec<(String, Json)> = Vec::new();
        let ghost keys = torn_keys();
        let ghost start = fields@;
        proof {
            reveal_strlit("offset");
            reveal_strlit("bytes");
            assert("offset"@.len() == 6 && "bytes"@.len() == 5);
            assert(forall|m: Seq<char>| #[trigger] field_in(start, m) is None);
        }
        record::put_key(&mut fields, Ghost(keys), Ghost(0), "offset", Json::Count(self.offset));
        record::put_key(&mut fields, Ghost(keys), Ghost(1), "bytes", Json::Count(self.bytes));
        proof {
            assert(field_in(fields@, "offset"@) == Some(Json::Count(self.offset)));
            assert(field_in(fields@, "bytes"@) == Some(Json::Count(self.bytes)));
            assert(record::key_holds(keys[0], fields@));
            assert(record::key_holds(keys[1], fields@));
        }
        Json::Object(fields)
    }
}

/// A launch record is read key by key: what is required is there, what may be left out reads
/// as nothing where it is, and no other key is.
pub proof fn law_a_launch_record_is_read_key_by_key(fields: Vec<(String, Json)>)
    requires
        is_launch_record(Json::Object(fields)),
    ensures
        ({
            let read = launch_record_of(Json::Object(fields));
            &&& forall|i: int| 0 <= i < fields@.len() ==> (#[trigger] fields@[i]).0@ == "run_id"@ || fields@[i].0@ == "plan"@ || fields@[i].0@ == "dir"@ || fields@[i].0@ == "graph"@ || fields@[i].0@ == "graph_run"@ || fields@[i].0@ == "node_graph"@ || fields@[i].0@ == "pr_author_graph"@ || fields@[i].0@ == "launcher"@ || fields@[i].0@ == "session"@ || fields@[i].0@ == "pid"@ || fields@[i].0@ == "host"@ || fields@[i].0@ == "started"@ || fields@[i].0@ == "started_at"@ || fields@[i].0@ == "heartbeat_interval"@ || fields@[i].0@ == "dag_sets"@ || fields@[i].0@ == "node_sets"@ || fields@[i].0@ == "adoptions"@ || fields@[i].0@ == "filters"@
            &&& field_in(fields@, "run_id"@) is Some && field_in(fields@, "run_id"@)->0 is Text && read.run_id == field_in(fields@, "run_id"@)->0->Text_0@
            &&& field_in(fields@, "plan"@) is Some && field_in(fields@, "plan"@)->0 is Text && read.plan == field_in(fields@, "plan"@)->0->Text_0@
            &&& field_in(fields@, "dir"@) is None ==> read.dir.len() == 0
            &&& field_in(fields@, "dir"@) is Some ==> field_in(fields@, "dir"@)->0 is Text && read.dir == field_in(fields@, "dir"@)->0->Text_0@
            &&& field_in(fields@, "graph"@) is None ==> read.graph.len() == 0
            &&& field_in(fields@, "graph"@) is Some ==> field_in(fields@, "graph"@)->0 is Text && read.graph == field_in(fields@, "graph"@)->0->Text_0@
            &&& field_in(fields@, "graph_run"@) is None ==> read.graph_run.len() == 0
            &&& field_in(fields@, "graph_run"@) is Some ==> field_in(fields@, "graph_run"@)->0 is Text && read.graph_run == field_in(fields@, "graph_run"@)->0->Text_0@
            &&& field_in(fields@, "node_graph"@) is None ==> read.node_graph.len() == 0
            &&& field_in(fields@, "node_graph"@) is Some ==> field_in(fields@, "node_graph"@)->0 is Text && read.node_graph == field_in(fields@, "node_graph"@)->0->Text_0@
            &&& field_in(fields@, "pr_author_graph"@) is None ==> read.pr_author_graph.len() == 0
            &&& field_in(fields@, "pr_author_graph"@) is Some ==> field_in(fields@, "pr_author_graph"@)->0 is Text && read.pr_author_graph == field_in(fields@, "pr_author_graph"@)->0->Text_0@
            &&& field_in(fields@, "launcher"@) is Some && field_in(fields@, "launcher"@)->0 is Text && read.launcher == field_in(fields@, "launcher"@)->0->Text_0@
            &&& field_in(fields@, "session"@) is Some && field_in(fields@, "session"@)->0 is Text && read.session == field_in(fields@, "session"@)->0->Text_0@
            &&& field_in(fields@, "pid"@) == Some(Json::Count(read.pid as u64))
            &&& field_in(fields@, "host"@) is Some && field_in(fields@, "host"@)->0 is Text && read.host == field_in(fields@, "host"@)->0->Text_0@
            &&& field_in(fields@, "started"@) is None ==> read.started.len() == 0
            &&& field_in(fields@, "started"@) is Some ==> field_in(fields@, "started"@)->0 is Text && read.started == field_in(fields@, "started"@)->0->Text_0@
            &&& field_in(fields@, "started_at"@) is Some && field_in(fields@, "started_at"@)->0 is Text && read.started_at == field_in(fields@, "started_at"@)->0->Text_0@
            &&& field_in(fields@, "heartbeat_interval"@) == Some(Json::Count(read.heartbeat_interval as u64))
            &&& field_in(fields@, "dag_sets"@) is None ==> read.dag_sets.len() == 0
            &&& field_in(fields@, "dag_sets"@) is Some ==> field_in(fields@, "dag_sets"@)->0 is List && read.dag_sets.len() == field_in(fields@, "dag_sets"@)->0->List_0@.len() && forall|i: int|
                0 <= i < read.dag_sets.len() ==> #[trigger] read.dag_sets[i] == field_in(fields@, "dag_sets"@)->0->List_0@[i]->Text_0@
            &&& field_in(fields@, "node_sets"@) is None ==> read.node_sets.len() == 0
            &&& field_in(fields@, "node_sets"@) is Some ==> field_in(fields@, "node_sets"@)->0 is List && read.node_sets.len() == field_in(fields@, "node_sets"@)->0->List_0@.len() && forall|i: int|
                0 <= i < read.node_sets.len() ==> #[trigger] read.node_sets[i] == field_in(fields@, "node_sets"@)->0->List_0@[i]->Text_0@
            &&& field_in(fields@, "adoptions"@) is None ==> read.adoptions == 0
            &&& field_in(fields@, "adoptions"@) is Some ==> field_in(fields@, "adoptions"@) == Some(Json::Count(read.adoptions as u64))
        }),
{
    let keys = launch_keys();
    assert(record::key_holds(keys[0], fields@));
    assert(record::key_holds(keys[1], fields@));
    assert(record::key_holds(keys[2], fields@));
    assert(record::key_holds(keys[3], fields@));
    assert(record::key_holds(keys[4], fields@));
    assert(record::key_holds(keys[5], fields@));
    assert(record::key_holds(keys[6], fields@));
    assert(record::key_holds(keys[7], fields@));
    assert(record::key_holds(keys[8], fields@));
    assert(record::key_holds(keys[9], fields@));
    assert(record::key_holds(keys[10], fields@));
    assert(record::key_holds(keys[11], fields@));
    assert(record::key_holds(keys[12], fields@));
    assert(record::key_holds(keys[13], fields@));
    assert(record::key_holds(keys[14], fields@));
    assert(record::key_holds(keys[15], fields@));
    assert(record::key_holds(keys[16], fields@));
    assert forall|i: int| 0 <= i < fields@.len() implies (#[trigger] fields@[i]).0@ == "run_id"@ || fields@[i].0@ == "plan"@ || fields@[i].0@ == "dir"@ || fields@[i].0@ == "graph"@ || fields@[i].0@ == "graph_run"@ || fields@[i].0@ == "node_graph"@ || fields@[i].0@ == "pr_author_graph"@ || fields@[i].0@ == "launcher"@ || fields@[i].0@ == "session"@ || fields@[i].0@ == "pid"@ || fields@[i].0@ == "host"@ || fields@[i].0@ == "started"@ || fields@[i].0@ == "started_at"@ || fields@[i].0@ == "heartbeat_interval"@ || fields@[i].0@ == "dag_sets"@ || fields@[i].0@ == "node_sets"@ || fields@[i].0@ == "adoptions"@ || fields@[i].0@ == "filters"@ by {
        assert(record::is_key(keys, fields@[i].0@));
        let k = choose|k: int| 0 <= k < keys.len() && #[trigger] keys[k].name@ == fields@[i].0@;
        assert(keys.len() == 18);
        assert(k == 0 || k == 1 || k == 2 || k == 3 || k == 4 || k == 5 || k == 6 || k == 7 || k == 8 || k == 9 || k == 10 || k == 11 || k == 12 || k == 13 || k == 14 || k == 15 || k == 16 || k == 17);
    }
}

/// A lock's record is read key by key; only the start token may be left out.
pub proof fn law_a_lock_is_read_key_by_key(fields: Vec<(String, Json)>)
    requires
        record::is_record(lock_keys(), Json::Object(fields)),
    ensures
        ({
            let read = lock_of(Json::Object(fields));
            &&& forall|i: int| 0 <= i < fields@.len() ==> (#[trigger] fields@[i]).0@ == "pid"@ || fields@[i].0@ == "host"@ || fields@[i].0@ == "acquired_at"@ || fields@[i].0@ == "verb"@ || fields@[i].0@ == "started"@
            &&& field_in(fields@, "pid"@) == Some(Json::Count(read.pid as u64))
            &&& field_in(fields@, "host"@) is Some && field_in(fields@, "host"@)->0 is Text && read.host == field_in(fields@, "host"@)->0->Text_0@
            &&& field_in(fields@, "acquired_at"@) is Some && field_in(fields@, "acquired_at"@)->0 is Text && read.acquired_at == field_in(fields@, "acquired_at"@)->0->Text_0@
            &&& field_in(fields@, "verb"@) is Some && field_in(fields@, "verb"@)->0 is Text && read.verb == field_in(fields@, "verb"@)->0->Text_0@
            &&& field_in(fields@, "started"@) is None ==> read.started.len() == 0
            &&& field_in(fields@, "started"@) is Some ==> field_in(fields@, "started"@)->0 is Text && read.started == field_in(fields@, "started"@)->0->Text_0@
        }),
{
    let keys = lock_keys();
    assert(record::key_holds(keys[0], fields@));
    assert(record::key_holds(keys[1], fields@));
    assert(record::key_holds(keys[2], fields@));
    assert(record::key_holds(keys[3], fields@));
    assert(record::key_holds(keys[4], fields@));
    assert forall|i: int| 0 <= i < fields@.len() implies (#[trigger] fields@[i]).0@ == "pid"@ || fields@[i].0@ == "host"@ || fields@[i].0@ == "acquired_at"@ || fields@[i].0@ == "verb"@ || fields@[i].0@ == "started"@ by {
        assert(record::is_key(keys, fields@[i].0@));
        let k = choose|k: int| 0 <= k < keys.len() && #[trigger] keys[k].name@ == fields@[i].0@;
        assert(keys.len() == 5);
        assert(k == 0 || k == 1 || k == 2 || k == 3 || k == 4);
    }
}

/// A dispatch's record is read key by key, and every one of its keys is required.
pub proof fn law_a_dispatch_is_read_key_by_key(fields: Vec<(String, Json)>)
    requires
        record::is_record(dispatch_keys(), Json::Object(fields)),
    ensures
        ({
            let read = dispatch_of(Json::Object(fields));
            &&& forall|i: int| 0 <= i < fields@.len() ==> (#[trigger] fields@[i]).0@ == "node"@ || fields@[i].0@ == "pid"@ || fields@[i].0@ == "host"@ || fields@[i].0@ == "dispatched_at"@ || fields@[i].0@ == "started"@
            &&& field_in(fields@, "node"@) is Some && field_in(fields@, "node"@)->0 is Text && read.node == field_in(fields@, "node"@)->0->Text_0@
            &&& field_in(fields@, "pid"@) == Some(Json::Count(read.pid as u64))
            &&& field_in(fields@, "host"@) is Some && field_in(fields@, "host"@)->0 is Text && read.host == field_in(fields@, "host"@)->0->Text_0@
            &&& field_in(fields@, "dispatched_at"@) is Some && field_in(fields@, "dispatched_at"@)->0 is Text && read.dispatched_at == field_in(fields@, "dispatched_at"@)->0->Text_0@
            &&& field_in(fields@, "started"@) is Some && field_in(fields@, "started"@)->0 is Text && read.started == field_in(fields@, "started"@)->0->Text_0@
        }),
{
    let keys = dispatch_keys();
    assert(record::key_holds(keys[0], fields@));
    assert(record::key_holds(keys[1], fields@));
    assert(record::key_holds(keys[2], fields@));
    assert(record::key_holds(keys[3], fields@));
    assert(record::key_holds(keys[4], fields@));
    assert forall|i: int| 0 <= i < fields@.len() implies (#[trigger] fields@[i]).0@ == "node"@ || fields@[i].0@ == "pid"@ || fields@[i].0@ == "host"@ || fields@[i].0@ == "dispatched_at"@ || fields@[i].0@ == "started"@ by {
        assert(record::is_key(keys, fields@[i].0@));
        let k = choose|k: int| 0 <= k < keys.len() && #[trigger] keys[k].name@ == fields@[i].0@;
        assert(keys.len() == 5);
        assert(k == 0 || k == 1 || k == 2 || k == 3 || k == 4);
    }
}

/// A healed fragment's record is read key by key, and both of its keys are required.
pub proof fn law_a_healed_fragment_is_read_key_by_key(fields: Vec<(String, Json)>)
    requires
        record::is_record(torn_keys(), Json::Object(fields)),
    ensures
        ({
            let read = torn_of(Json::Object(fields));
            &&& forall|i: int| 0 <= i < fields@.len() ==> (#[trigger] fields@[i]).0@ == "offset"@ || fields@[i].0@ == "bytes"@
            &&& field_in(fields@, "offset"@) == Some(Json::Count(read.offset as u64))
            &&& field_in(fields@, "bytes"@) == Some(Json::Count(read.bytes as u64))
        }),
{
    let keys = torn_keys();
    assert(record::key_holds(keys[0], fields@));
    assert(record::key_holds(keys[1], fields@));
    assert forall|i: int| 0 <= i < fields@.len() implies (#[trigger] fields@[i]).0@ == "offset"@ || fields@[i].0@ == "bytes"@ by {
        assert(record::is_key(keys, fields@[i].0@));
        let k = choose|k: int| 0 <= k < keys.len() && #[trigger] keys[k].name@ == fields@[i].0@;
        assert(keys.len() == 2);
        assert(k == 0 || k == 1);
    }
}

/// A path is a directory and a name with one slash between them; an absolute name, and a
/// name under no directory, stand for themselves.
pub proof fn law_how_a_path_is_joined(dir: Seq<char>, name: Seq<char>)
    ensures
        dir.len() == 0 ==> joined(dir, name) == name,
        name.len() > 0 && name[0] == '/' ==> joined(dir, name) == name,
        dir.len() > 0 && (name.len() == 0 || name[0] != '/') ==> {
            let path = joined(dir, name);
            let at = if dir.last() == '/' { dir.len() as int } else { dir.len() as int + 1 };
            &&& path.len() == at + name.len()
            &&& path.take(dir.len() as int) == dir
            &&& path[at - 1] == '/'
            &&& path.skip(at) == name
        },
{
    reveal_strlit("/");
    if dir.len() > 0 && (name.len() == 0 || name[0] != '/') {
        let path = joined(dir, name);
        let at = if dir.last() == '/' { dir.len() as int } else { dir.len() as int + 1 };
        assert(path.take(dir.len() as int) =~= dir);
        assert(path.skip(at) =~= name);
    }
}

/// Which names are run ids: any but the empty one and the two that navigate, as long as
/// they hold no separator.
pub proof fn law_which_names_are_run_ids(run: Seq<char>)
    ensures
        is_run_id(run) <==> run.len() > 0 && run != seq!['.'] && run != seq!['.', '.']
            && !run.contains('/') && !run.contains('\\'),
{
    reveal_strlit(".");
    reveal_strlit("..");
    assert("."@ =~= seq!['.']);
    assert(".."@ =~= seq!['.', '.']);
}

/// A segment keeps letters, digits, dashes, underscores and dots where they stand, and puts
/// a dash for anything else; a name of which only dots are left, or nothing, is unnamed.
pub proof fn law_what_a_segment_keeps(name: Seq<char>, i: int)
    ensures
        (exists|k: int| 0 <= k < name.len() && #[trigger] name[k] != '.') ==> segment(name).len()
            == name.len(),
        (exists|k: int| 0 <= k < name.len() && #[trigger] name[k] != '.') && 0 <= i < name.len()
            ==> segment(name)[i] == (if 'a' <= name[i] <= 'z' || 'A' <= name[i] <= 'Z' || '0' <= name[i] <= '9'
            || name[i] == '-' || name[i] == '_' || name[i] == '.' {
            name[i]
        } else {
            '-'
        }),
        (forall|k: int| 0 <= k < name.len() ==> #[trigger] name[k] == '.') ==> segment(name)
            == "unnamed"@,
{
    if exists|k: int| 0 <= k < name.len() && #[trigger] name[k] != '.' {
        let k = choose|k: int| 0 <= k < name.len() && #[trigger] name[k] != '.';
        assert(mapped(name)[k] != '.');
        assert(!only_dots(mapped(name)));
        if 0 <= i < name.len() {
            assert(mapped(name)[i] == (if segment_char(name[i]) { name[i] } else { '-' }));
        }
    }
    if forall|k: int| 0 <= k < name.len() ==> #[trigger] name[k] == '.' {
        assert forall|k: int| 0 <= k < mapped(name).len() implies #[trigger] mapped(name)[k]
            == '.' by {
            assert(name[k] == '.');
        }
    }
}

/// Which entries under the runs root are runs: directories with a name that is text and a
/// launch record that is a file, and nothing else. An entry that went, and one that is no
/// directory, never claimed to be one; every other is refused.
pub proof fn law_which_entries_are_runs(root: Seq<char>, entry: Entry)
    ensures
        verdict(root, entry) is Run <==> (entry matches Entry::Seen { name, about, launch, .. }
            && about is Directory && name is Some && launch is File),
        verdict(root, entry) is Pass <==> (entry matches Entry::Seen { about, .. } && (
        about is Gone || about is Other)),
        entry matches Entry::Seen { name, about, launch, .. } ==> (about is Directory
            && name is Some && launch is File ==> verdict(root, entry) == Verdict::Run(
            name->0@,
            joined(root, name->0@),
        )),
        entry is Unreadable ==> verdict(root, entry) is Skip && verdict(root, entry)->Skip_0
            == encode_utf8(root),
        entry matches Entry::Seen { path, about, name, .. } ==> (about is Undescribed
            || about is Directory && name is None ==> verdict(root, entry) is Skip && verdict(
            root,
            entry,
        )->Skip_0 == path@),
{
}

proof fn lemma_insert_holds<K>(
    list: Seq<(K, Seq<char>)>,
    pair: (K, Seq<char>),
    before: spec_fn(K, K) -> bool,
    other: (K, Seq<char>),
)
    ensures
        insert_pair(list, pair, before).contains(other) <==> other == pair || list.contains(other),
    decreases list.len(),
{
    let r = insert_pair(list, pair, before);
    if list.len() == 0 {
        assert(r[0] == pair);
        assert(r.len() == 1);
    } else if before(pair.0, list[0].0) {
        assert(r[0] == pair);
        if list.contains(other) {
            let k = choose|k: int| 0 <= k < list.len() && list[k] == other;
            assert(r[k + 1] == other);
        }
        if r.contains(other) && other != pair {
            let k = choose|k: int| 0 <= k < r.len() && r[k] == other;
            assert(list[k - 1] == other);
        }
    } else {
        let rest = list.skip(1);
        lemma_insert_holds(rest, pair, before, other);
        let more = insert_pair(rest, pair, before);
        if r.contains(other) {
            let k = choose|k: int| 0 <= k < r.len() && r[k] == other;
            if k == 0 {
                assert(list[0] == other);
            } else {
                assert(more[k - 1] == other);
                assert(more.contains(other));
                if other != pair {
                    let q = choose|q: int| 0 <= q < rest.len() && rest[q] == other;
                    assert(list[q + 1] == other);
                }
            }
        }
        if list.contains(other) {
            let k = choose|k: int| 0 <= k < list.len() && list[k] == other;
            if k == 0 {
                assert(r[0] == other);
            } else {
                assert(rest[k - 1] == other);
                assert(rest.contains(other));
            }
        }
        if more.contains(other) {
            let k = choose|k: int| 0 <= k < more.len() && more[k] == other;
            assert(r[k + 1] == other);
        }
    }
}

/// An index holds exactly what its entries claimed: a run for each entry that is one, and
/// a refusal for each that is refused.
pub proof fn law_an_index_holds_what_was_claimed(
    root: Seq<char>,
    entries: Seq<Entry>,
    run: (Seq<char>, Seq<char>),
    refusal: (Seq<u8>, Seq<char>),
)
    ensures
        indexed(root, entries).runs.contains(run) <==> exists|i: int|
            0 <= i < entries.len() && verdict(root, #[trigger] entries[i]) == Verdict::Run(
                run.0,
                run.1,
            ),
        indexed(root, entries).skipped.contains(refusal) <==> exists|i: int|
            0 <= i < entries.len() && verdict(root, #[trigger] entries[i]) == Verdict::Skip(
                refusal.0,
                refusal.1,
            ),
    decreases entries.len(),
{
    if entries.len() > 0 {
        let before = entries.drop_last();
        let last = entries.last();
        law_an_index_holds_what_was_claimed(root, before, run, refusal);
        assert(entries[entries.len() - 1] == last);
        match verdict(root, last) {
            Verdict::Run(name, dir) => {
                lemma_insert_holds(indexed(root, before).runs, (name, dir), by_id(), run);
            },
            Verdict::Skip(path, reason) => {
                lemma_insert_holds(
                    indexed(root, before).skipped,
                    (path, reason),
                    by_path(),
                    refusal,
                );
            },
            Verdict::Pass => {},
        }
        if exists|i: int|
            0 <= i < before.len() && verdict(root, #[trigger] before[i]) == Verdict::Run(
                run.0,
                run.1,
            ) {
            let i = choose|i: int|
                0 <= i < before.len() && verdict(root, #[trigger] before[i]) == Verdict::Run(
                    run.0,
                    run.1,
                );
            assert(entries[i] == before[i]);
        }
        if exists|i: int|
            0 <= i < before.len() && verdict(root, #[trigger] before[i]) == Verdict::Skip(
                refusal.0,
                refusal.1,
            ) {
            let i = choose|i: int|
                0 <= i < before.len() && verdict(root, #[trigger] before[i]) == Verdict::Skip(
                    refusal.0,
                    refusal.1,
                );
            assert(entries[i] == before[i]);
        }
        if exists|i: int|
            0 <= i < entries.len() && verdict(root, #[trigger] entries[i]) == Verdict::Run(
                run.0,
                run.1,
            ) {
            let i = choose|i: int|
                0 <= i < entries.len() && verdict(root, #[trigger] entries[i]) == Verdict::Run(
                    run.0,
                    run.1,
                );
            if i < before.len() {
                assert(before[i] == entries[i]);
            }
        }
        if exists|i: int|
            0 <= i < entries.len() && verdict(root, #[trigger] entries[i]) == Verdict::Skip(
                refusal.0,
                refusal.1,
            ) {
            let i = choose|i: int|
                0 <= i < entries.len() && verdict(root, #[trigger] entries[i]) == Verdict::Skip(
                    refusal.0,
                    refusal.1,
                );
            if i < before.len() {
                assert(before[i] == entries[i]);
            }
        }
    }
}

/// The runs of an index go up by their ids, and its refusals by their paths.
pub proof fn law_an_index_goes_up(root: Seq<char>, entries: Seq<Entry>, i: int, j: int)
    ensures
        0 <= i < j < indexed(root, entries).runs.len() ==> !precedes(
            indexed(root, entries).runs[j].0,
            indexed(root, entries).runs[i].0,
        ),
        0 <= i < j < indexed(root, entries).skipped.len() ==> !path_precedes(
            indexed(root, entries).skipped[j].0,
            indexed(root, entries).skipped[i].0,
        ),
{
    law_the_index_is_in_order(root, entries);
    let runs = indexed(root, entries).runs;
    let skipped = indexed(root, entries).skipped;
    if 0 <= i < j < runs.len() {
        assert(!by_id()(runs[j].0, runs[i].0));
    }
    if 0 <= i < j < skipped.len() {
        assert(!by_path()(skipped[j].0, skipped[i].0));
    }
}

/// The order of paths is decided by the first byte they differ in, and where one is the
/// beginning of the other the shorter comes first.
pub proof fn law_the_first_byte_that_differs_decides(a: Seq<u8>, b: Seq<u8>, k: int)
    requires
        0 <= k <= a.len(),
        k <= b.len(),
        forall|i: int| 0 <= i < k ==> #[trigger] a[i] == b[i],
    ensures
        k < a.len() && k < b.len() && a[k] != b[k] ==> (path_precedes(a, b) <==> a[k] < b[k]),
        k == a.len() && k < b.len() ==> path_precedes(a, b),
        k == b.len() ==> !path_precedes(a, b),
    decreases k,
{
    if k > 0 {
        let x = a.skip(1);
        let y = b.skip(1);
        assert forall|i: int| 0 <= i < k - 1 implies #[trigger] x[i] == y[i] by {
            assert(x[i] == a[i + 1] && y[i] == b[i + 1]);
        }
        law_the_first_byte_that_differs_decides(x, y, k - 1);
        assert(a[0] == b[0]);
    }
}

/// A root nobody wrote to indexes as empty, and one that cannot be listed is itself the
/// one refusal.
pub proof fn law_what_a_listing_comes_to(root: Seq<char>, listing: Listing)
    ensures
        listing is Missing ==> index_of(root, listing).runs.len() == 0 && index_of(
            root,
            listing,
        ).skipped.len() == 0,
        listing is Unreadable ==> index_of(root, listing).runs.len() == 0 && index_of(
            root,
            listing,
        ).skipped.len() == 1 && index_of(root, listing).skipped[0].0 == encode_utf8(root),
        listing matches Listing::Entries(entries) ==> index_of(root, listing) == indexed(
            root,
            entries@,
        ),
{
}

/// A run is the session's that launched it and no other's, and a launch nobody is known to
/// have made is nobody's; a view says so, and names a foreign session by its digest.
pub proof fn law_whose_a_run_is(
    launcher: Seq<char>,
    launched: Seq<char>,
    session: Seq<char>,
    digest: Seq<char>,
)
    ensures
        owned(launched, session) <==> launched == session && launched != "unknown"@,
        owner_text(launcher, launched, session, digest) == (if launched == "unknown"@ {
            "[unknown]"@
        } else if launched == session {
            "[mine]"@
        } else {
            "["@ + launcher + ":"@ + digest + "]"@
        }),
{
    reveal_strlit("unknown");
}

/// Where a run's files lie by default.
pub proof fn law_the_names_of_the_ledger()
    ensures
        RUNS_DIR_ENV@ == "ONEPIPELINE_RUNS_DIR"@,
        DEFAULT_RUNS_DIR@ == "runs"@,
        UNKNOWN_LAUNCHER@ == "unknown"@,
        LAUNCH_RECORD@ == "launch.json"@,
{
    reveal_strlit("ONEPIPELINE_RUNS_DIR");
    reveal_strlit("runs");
    reveal_strlit("unknown");
    reveal_strlit("launch.json");
}

/// A holder is taken for gone only where this host can tell: it ran here, and it does not
/// run any more. One of another host never is, nor one that may be live.
pub proof fn law_a_holder_is_gone_only_where_this_host_can_tell(
    record: LockRecord,
    may_be_live: bool,
    host: Seq<char>,
)
    ensures
        holder_gone(record, may_be_live, host) <==> !may_be_live && record.host@ == host,
        may_be_live ==> !holder_gone(record, may_be_live, host),
        record.host@ != host ==> !holder_gone(record, may_be_live, host),
{
}

/// An entry of the registry is refused exactly where it could not be listed or read, or
/// carries no start token.
pub proof fn law_which_registered_dispatches_are_refused(entry: Registered)
    ensures
        is_refused(entry) <==> (entry matches Registered::Read { record, .. } ==> blank(
            record.started@,
        )),
{
}

/// The refusal of a registry is that of its first entry that is refused, and a registry
/// none of whose entries is has none.
pub proof fn law_the_first_refused_entry_speaks_for_the_registry(
    entries: Seq<Registered>,
    from: int,
)
    requires
        0 <= from <= entries.len(),
    ensures
        match first_refused(entries, from) {
            Some(i) => from <= i < entries.len() && is_refused(entries[i]) && forall|j: int|
                from <= j < i ==> !is_refused(#[trigger] entries[j]),
            None => forall|j: int| from <= j < entries.len() ==> !is_refused(#[trigger] entries[j]),
        },
    decreases entries.len() - from,
{
    if from < entries.len() {
        law_the_first_refused_entry_speaks_for_the_registry(entries, from + 1);
    }
}

proof fn lemma_insert_record(list: Seq<DispatchRecord>, record: DispatchRecord, bound: int)
    requires
        forall|i: int, j: int|
            0 <= i < j < list.len() ==> (#[trigger] list[i]).pid <= (#[trigger] list[j]).pid,
        forall|i: int| 0 <= i < list.len() ==> bound <= (#[trigger] list[i]).pid,
        bound <= record.pid,
    ensures
        ({
            let r = insert_record(list, record);
            &&& r.to_multiset() == list.to_multiset().insert(record)
            &&& forall|i: int, j: int|
                0 <= i < j < r.len() ==> (#[trigger] r[i]).pid <= (#[trigger] r[j]).pid
            &&& forall|i: int| 0 <= i < r.len() ==> bound <= (#[trigger] r[i]).pid
        }),
    decreases list.len(),
{
    broadcast use vstd::seq_lib::group_to_multiset_ensures;

    let r = insert_record(list, record);
    if list.len() == 0 {
        assert(r =~= list.push(record));
    } else if record.pid < list[0].pid {
        assert(r =~= list.insert(0, record));
        assert(r.to_multiset() =~= list.to_multiset().insert(record));
        assert forall|i: int, j: int| 0 <= i < j < r.len() implies (#[trigger] r[i]).pid <= (
        #[trigger] r[j]).pid by {
            if i == 0 {
                assert(list[0].pid <= list[j - 1].pid);
            }
        }
    } else {
        let rest = list.skip(1);
        assert forall|i: int| 0 <= i < rest.len() implies list[0].pid <= (#[trigger] rest[i]).pid by {
            assert(rest[i] == list[i + 1]);
        }
        assert forall|i: int, j: int| 0 <= i < j < rest.len() implies (#[trigger] rest[i]).pid <= (
        #[trigger] rest[j]).pid by {
            assert(rest[i] == list[i + 1] && rest[j] == list[j + 1]);
        }
        lemma_insert_record(rest, record, list[0].pid as int);
        let more = insert_record(rest, record);
        assert(r =~= more.insert(0, list[0]));
        assert(list =~= rest.insert(0, list[0]));
        assert(r.to_multiset() =~= list.to_multiset().insert(record)) by {
            assert(r.to_multiset() =~= more.to_multiset().insert(list[0]));
            assert(list.to_multiset() =~= rest.to_multiset().insert(list[0]));
        }
        assert forall|i: int, j: int| 0 <= i < j < r.len() implies (#[trigger] r[i]).pid <= (
        #[trigger] r[j]).pid by {
            if i == 0 {
                assert(list[0].pid <= more[j - 1].pid);
            } else {
                assert(more[i - 1].pid <= more[j - 1].pid);
            }
        }
        assert forall|i: int| 0 <= i < r.len() implies bound <= (#[trigger] r[i]).pid by {
            if i > 0 {
                assert(list[0].pid <= more[i - 1].pid);
            }
        }
    }
}

/// A registry that reads hands back every record it holds, once, and by process id.
pub proof fn law_a_registry_is_handed_back_by_pid(entries: Seq<Registered>, i: int, j: int)
    ensures
        0 <= i < j < by_pid(entries).len() ==> by_pid(entries)[i].pid <= by_pid(entries)[j].pid,
        by_pid(entries).to_multiset() == entries.map_values(
            |e: Registered| e->record,
        ).to_multiset(),
{
    lemma_by_pid(entries);
}

proof fn lemma_by_pid(entries: Seq<Registered>)
    ensures
        forall|i: int, j: int|
            0 <= i < j < by_pid(entries).len() ==> (#[trigger] by_pid(entries)[i]).pid <= (
            #[trigger] by_pid(entries)[j]).pid,
        by_pid(entries).to_multiset() == entries.map_values(
            |e: Registered| e->record,
        ).to_multiset(),
    decreases entries.len(),
{
    broadcast use vstd::seq_lib::group_to_multiset_ensures;

    let f = |e: Registered| e->record;
    if entries.len() > 0 {
        let before = entries.drop_last();
        lemma_by_pid(before);
        lemma_insert_record(by_pid(before), entries.last()->record, 0);
        assert(entries.map_values(f) =~= before.map_values(f).push(entries.last()->record));
    } else {
        assert(entries.map_values(f) =~= Seq::empty());
    }
}

/// What is read of an append-only file is its lines that are not blank, in order.
pub proof fn law_blank_lines_are_left_out(lines: Seq<Seq<char>>)
    ensures
        kept_lines(lines) == lines.filter(|l: Seq<char>| !blank(l)),
    decreases lines.len(),
{
    reveal(Seq::filter);
    if lines.len() > 0 {
        law_blank_lines_are_left_out(lines.drop_last());
    }
}

proof fn lemma_record_end(bytes: Seq<u8>, from: int)
    requires
        0 <= from <= bytes.len(),
    ensures
        from <= record_end(bytes, from) <= bytes.len(),
        record_end(bytes, from) < bytes.len() ==> bytes[record_end(bytes, from)] == 10,
        forall|i: int| from <= i < record_end(bytes, from) ==> #[trigger] bytes[i] != 10,
    decreases bytes.len() - from,
{
    if from < bytes.len() && bytes[from] != 10 {
        lemma_record_end(bytes, from + 1);
    }
}

/// The lines of a file stand between its newlines, each numbered and placed: a line whose
/// newline landed is finished, and the next begins behind it.
pub proof fn law_a_finished_line_ends_at_its_newline(
    bytes: Seq<u8>,
    from: int,
    end: int,
    line: int,
)
    requires
        0 <= from <= end < bytes.len(),
        bytes[end] == '\n' as u8,
        forall|i: int| from <= i < end ==> #[trigger] bytes[i] != '\n' as u8,
    ensures
        ({
            let all = records_from(bytes, from, line);
            let rest = records_from(bytes, end + 1, line + 1);
            &&& all.len() == 1 + rest.len()
            &&& all[0].text == lossy_text(bytes.subrange(from, end))
            &&& all[0].line == line
            &&& all[0].offset == from
            &&& all[0].bytes == end - from
            &&& all[0].terminated
            &&& forall|k: int| 0 <= k < rest.len() ==> #[trigger] all[k + 1] == rest[k]
        }),
{
    lemma_record_end(bytes, from);
    let e = record_end(bytes, from);
    if e < end {
        assert(bytes[e] != 10);
    }
    if e > end {
        assert(bytes[end] != 10);
    }
}

/// What is left behind the last newline is a line nobody finished.
pub proof fn law_what_has_no_newline_is_unfinished(bytes: Seq<u8>, from: int, line: int)
    requires
        0 <= from <= bytes.len(),
        forall|i: int| from <= i < bytes.len() ==> #[trigger] bytes[i] != '\n' as u8,
    ensures
        from == bytes.len() ==> records_from(bytes, from, line).len() == 0,
        from < bytes.len() ==> ({
            let all = records_from(bytes, from, line);
            &&& all.len() == 1
            &&& all[0].text == lossy_text(bytes.subrange(from, bytes.len() as int))
            &&& all[0].line == line
            &&& all[0].offset == from
            &&& all[0].bytes == bytes.len() - from
            &&& !all[0].terminated
        }),
{
    lemma_record_end(bytes, from);
    let e = record_end(bytes, from);
    if e < bytes.len() {
        assert(bytes[e] != 10);
    }
}

/// A launch record is seen whole.
pub proof fn law_a_launch_record_is_seen_whole(value: LaunchRecord)
    ensures
        value@.run_id == value.run_id@,
        value@.plan == value.plan@,
        value@.dir == value.dir@,
        value@.graph == value.graph@,
        value@.graph_run == value.graph_run@,
        value@.node_graph == value.node_graph@,
        value@.pr_author_graph == value.pr_author_graph@,
        value@.launcher == value.launcher@,
        value@.session == value.session@,
        value@.host == value.host@,
        value@.started == value.started@,
        value@.started_at == value.started_at@,
        value@.filters == value.filters@,
        value@.pid == value.pid,
        value@.heartbeat_interval == value.heartbeat_interval,
        value@.adoptions == value.adoptions,
        value@.dag_sets.len() == value.dag_sets@.len(),
        forall|i: int| 0 <= i < value.dag_sets@.len() ==> #[trigger] value@.dag_sets[i] == value.dag_sets@[i]@,
        value@.node_sets.len() == value.node_sets@.len(),
        forall|i: int| 0 <= i < value.node_sets@.len() ==> #[trigger] value@.node_sets[i] == value.node_sets@[i]@,
{
}

/// A lock record is seen whole.
pub proof fn law_a_lock_is_seen_whole(value: LockRecord)
    ensures
        value@.pid == value.pid,
        value@.host == value.host@,
        value@.acquired_at == value.acquired_at@,
        value@.verb == value.verb@,
        value@.started == value.started@,
{
}

/// A dispatch record is seen whole.
pub proof fn law_a_dispatch_is_seen_whole(value: DispatchRecord)
    ensures
        value@.node == value.node@,
        value@.pid == value.pid,
        value@.host == value.host@,
        value@.dispatched_at == value.dispatched_at@,
        value@.started == value.started@,
{
}

/// A line of an append-only file is seen whole.
pub proof fn law_a_line_is_seen_whole(value: Record)
    ensures
        value@.text == value.text@,
        value@.line == value.line,
        value@.offset == value.offset,
        value@.bytes == value.bytes,
        value@.terminated == value.terminated,
{
}

/// An index is seen whole: each run by its id and directory, each refusal by its path and reason.
pub proof fn law_an_index_is_seen_whole(value: RunIndex)
    ensures
        value@.runs.len() == value.runs@.len(),
        forall|i: int|
            0 <= i < value.runs@.len() ==> #[trigger] value@.runs[i] == (
                value.runs@[i].run@,
                value.runs@[i].dir@,
            ),
        value@.skipped.len() == value.skipped@.len(),
        forall|i: int|
            0 <= i < value.skipped@.len() ==> #[trigger] value@.skipped[i] == (
                value.skipped@[i].path@,
                value.skipped@[i].reason@,
            ),
{
}

/// Where a dispatch's record lies: in the registry of its run, by the process and the claim.
pub proof fn law_where_a_dispatch_is_recorded(dir: Seq<char>, pid: u32, claim: u64)
    ensures
        dispatch_path(dir, pid, claim) == joined(
            joined(dir, "dispatches"@),
            dec(pid as nat) + "-"@ + dec(claim as nat) + ".json"@,
        ),
{
}

/// Only a launch record that is a file makes a directory a run; anything else is refused,
/// naming the record.
pub proof fn law_which_launch_records_are_refused(launch: LaunchSeen)
    ensures
        launch_refused(launch) is None <==> launch is File,
        launch_refused(launch) matches Some(why) ==> exists|a: Seq<char>, b: Seq<char>|
            why == #[trigger] (a + "launch.json"@ + b),
        launch matches LaunchSeen::Unreadable(error) ==> exists|a: Seq<char>|
            launch_refused(launch)->0 == #[trigger] (a + error@),
{
    reveal_strlit("launch.json");
    match launch {
        LaunchSeen::File => {},
        LaunchSeen::NotFile => {
            assert(launch_refused(launch)->0 == "its "@ + "launch.json"@
                + " is not a file, so it records no launch"@);
        },
        LaunchSeen::Missing => {
            assert(launch_refused(launch)->0 == "no "@ + "launch.json"@
                + ": a run root records the launch that owns it"@);
        },
        LaunchSeen::Unreadable(error) => {
            let head = "its "@ + LAUNCH_RECORD@ + " cannot be read: "@;
            assert(launch_refused(launch)->0 == head + error@);
            assert(head + error@ =~= "its "@ + "launch.json"@ + (" cannot be read: "@ + error@));
        },
    }
}

/// What a refused entry of the registry is refused with: the registry's own failure where
/// it could not be listed, what reading it came to where it could not be read, and the
/// missing start token — of which process, and in which record — where it carries none.
pub proof fn law_what_a_refused_dispatch_is_refused_with(
    registry: Seq<char>,
    entry: Registered,
    error: Error,
)
    requires
        refused_as(registry, entry, error),
    ensures
        entry matches Registered::Unlisted(said) ==> error is Ledger && error->path@ == registry
            && error->source@ == said@,
        entry matches Registered::Unread(why) ==> error == why,
        entry matches Registered::Read { path, record } ==> error is Invalid && exists|
            a: Seq<char>,
            b: Seq<char>,
        |
            error->Invalid_0@ == #[trigger] (path@ + a + dec(record.pid as nat) + b),
{
    match entry {
        Registered::Read { path, record } => {
            assert(tokenless(path@, record.pid) == path@
                + ": the dispatch it records carries no start token, so nothing says pid "@ + dec(
                record.pid as nat,
            ) + " is still this run's work"@);
        },
        _ => {},
    }
}

/// A file is torn where bytes stand behind its last newline, and the fragment is all of
/// them.
pub proof fn law_what_a_torn_file_ends_in(bytes: Seq<u8>, offset: int, length: int)
    requires
        0 <= offset,
    ensures
        torn(bytes, offset, length) <==> offset < bytes.len() && length == bytes.len() - offset && (
        offset > 0 ==> bytes[offset - 1] == '\n' as u8) && forall|i: int|
            offset <= i < bytes.len() ==> #[trigger] bytes[i] != '\n' as u8,
        ended(bytes) <==> bytes.len() == 0 || bytes[bytes.len() - 1] == '\n' as u8,
{
}

} // verus!
