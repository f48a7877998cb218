//! What this library refuses, and in which words.
use vstd::prelude::*;

verus! {

/// The process exit status of an operation that was applied.
pub const EXIT_SUCCESS: i32 = 0;

/// The process exit status of an operation that is queued, or of a run that is
/// unfinished.
pub const EXIT_QUEUED: i32 = 1;

/// The process exit status of a refused or malformed request.
pub const EXIT_REFUSED: i32 = 2;

/// The process exit status where nothing is driving the run.
pub const EXIT_UNDRIVEN: i32 = 3;

/// A refusal, carrying the words a reader is given.
#[derive(Debug, PartialEq, Eq)]
pub enum Error {
    /// A document or value this build does not accept.
    Invalid(String),
    /// A request this run will not act on.
    Refused(String),
    /// A file of the run's own that could not be read or written.
    Ledger {
        /// The file.
        path: String,
        /// What the filesystem said.
        source: String,
    },
    /// Another process owns the run.
    Locked {
        /// The run.
        run: String,
        /// The process that owns it.
        pid: u32,
        /// Where that process runs.
        host: String,
        /// What it is doing.
        verb: String,
    },
}

/// The words of a refusal, or nothing where it is not one of this kind.
pub open spec fn invalid<T>(r: Result<T, Error>) -> Option<Seq<char>> {
    match r {
        Err(Error::Invalid(why)) => Some(why@),
        _ => None,
    }
}

impl Error {
    /// What a reader is told.
    pub open spec fn said(&self) -> Seq<char> {
        match self {
            Error::Invalid(why) => why@,
            Error::Refused(why) => why@,
            Error::Ledger { path, source } => path@ + ": "@ + source@,
            Error::Locked { run, pid, host, verb } => "run '"@ + run@ + "' is owned by pid "@
                + crate::text::dec(*pid as nat) + " on "@ + host@ + " ("@ + verb@ + ")"@,
        }
    }

    /// What a reader is told.
    pub fn message(&self) -> (r: String)
        ensures
            r@ == self.said(),
    {
        match self {
            Error::Invalid(why) => why.clone(),
            Error::Refused(why) => why.clone(),
            Error::Ledger { path, source } => {
                let mut out = path.clone();
                out.append(": ");
                out.append(source.as_str());
                out
            },
            Error::Locked { run, pid, host, verb } => {
                let mut out: String = String::from_str("run '");
                out.append(run.as_str());
                out.append("' is owned by pid ");
                crate::text::push_dec(&mut out, *pid as u64);
                out.append(" on ");
                out.append(host.as_str());
                out.append(" (");
                out.append(verb.as_str());
                out.append(")");
                out
            },
        }
    }

    /// The exit status a refusal ends the process with.
    pub fn exit_code(&self) -> (r: i32)
        ensures
            r == EXIT_REFUSED,
    {
        EXIT_REFUSED
    }
}

/// The four exit statuses are told apart, and success is zero.
pub proof fn law_the_exit_statuses()
    ensures
        EXIT_SUCCESS == 0,
        EXIT_QUEUED == 1,
        EXIT_REFUSED == 2,
        EXIT_UNDRIVEN == 3,
{
}

/// A refusal is told in its own words, and one about a file or an owner names them.
pub proof fn law_a_refusal_is_told_in_its_words(error: Error)
    ensures
        error matches Error::Invalid(why) ==> error.said() == why@,
        error matches Error::Refused(why) ==> error.said() == why@,
        error matches Error::Ledger { path, source } ==> exists|between: Seq<char>|
            error.said() == #[trigger] (path@ + between + source@),
        error matches Error::Locked { run, pid, host, verb } ==> exists|
            a: Seq<char>,
            b: Seq<char>,
            c: Seq<char>,
            d: Seq<char>,
            e: Seq<char>,
        |
            error.said() == #[trigger] (a + run@ + b + crate::text::dec(pid as nat) + c + host@ + d
                + verb@ + e),
{
    match error {
        Error::Ledger { path, source } => {
            assert(error.said() == path@ + ": "@ + source@);
        },
        Error::Locked { run, pid, host, verb } => {
            assert(error.said() == "run '"@ + run@ + "' is owned by pid "@ + crate::text::dec(
                pid as nat,
            ) + " on "@ + host@ + " ("@ + verb@ + ")"@);
        },
        _ => {},
    }
}

} // verus!
