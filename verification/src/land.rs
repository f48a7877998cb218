//! Landing a branch out of band: the version-control library's own verb, with this
//! engine's drafter in front of it.
//!
//! What is decided here is what of a command line is this engine's own, whether a body
//! is drafted at all, where the drafter works, and what is left to remove afterwards.
use vstd::prelude::*;

use clap::CommandFactory;

use crate::agentgraph::{event_kind, event_word, GraphEvent};
use crate::error::Error;
use crate::event::{Envelope, Source};
use crate::filter::{carried, extra_of};
use crate::json;
use crate::json::{field_in, flag_in, text_in, Json};
use crate::ledger;
use crate::ledger::{joined, lossy_text};
use crate::lifecycle::{Drafted, Undrafted};
use crate::text;
use crate::text::{dec, dec_int, join, lines, one_lined, starts_with, text_of, texts, trim};

verus! {

/// The flag naming the graph a body is drafted by.
pub const PR_AUTHOR_GRAPH_FLAG: &'static str = "--pr-author-graph";

/// The same flag, written with its value.
pub const PR_AUTHOR_GRAPH_PREFIX: &'static str = "--pr-author-graph=";

/// The flag that lands with no drafting turn spent.
pub const NO_DRAFT_FLAG: &'static str = "--no-draft";

/// What ends the options of a command line.
pub const END_OF_OPTIONS: &'static str = "--";

/// Which verb a landing forwards to.
#[derive(Debug, Clone, Copy, PartialEq, Eq, Structural)]
pub enum Verb {
    /// Publish a completed branch.
    PublishBranch,
    /// Land a preserved one.
    Recover,
}

impl Verb {
    /// The verb's name on the version-control library's own command line.
    pub open spec fn forwarded(self) -> Seq<char> {
        match self {
            Verb::PublishBranch => "publish-branch"@,
            Verb::Recover => "recover"@,
        }
    }

    /// The verb's name on this engine's command line.
    pub open spec fn own(self) -> Seq<char> {
        match self {
            Verb::PublishBranch => "publish-branch"@,
            Verb::Recover => "repo-recover"@,
        }
    }

    /// The verb's name on the version-control library's own command line.
    pub fn onevcs(self) -> (r: &'static str)
        ensures
            r@ == self.forwarded(),
    {
        match self {
            Verb::PublishBranch => "publish-branch",
            Verb::Recover => "recover",
        }
    }

    /// The verb's name on this engine's command line.
    pub fn as_str(self) -> (r: &'static str)
        ensures
            r@ == self.own(),
    {
        match self {
            Verb::PublishBranch => "publish-branch",
            Verb::Recover => "repo-recover",
        }
    }
}

/// One argument of a command line.
#[derive(Debug, PartialEq, Eq)]
pub enum Arg {
    /// One that is text.
    Text(String),
    /// One that is not, in the host's own encoding.
    Raw(Vec<u8>),
}

/// An argument as contracts speak of it.
pub ghost enum ArgModel {
    Text(Seq<char>),
    Raw(Seq<u8>),
}

impl View for Arg {
    type V = ArgModel;

    open spec fn view(&self) -> ArgModel {
        match self {
            Arg::Text(text) => ArgModel::Text(text@),
            Arg::Raw(bytes) => ArgModel::Raw(bytes@),
        }
    }
}

/// Arguments as contracts speak of them.
pub open spec fn arg_models(args: Seq<Arg>) -> Seq<ArgModel> {
    args.map_values(|a: Arg| a@)
}

fn copy_bytes(bytes: &Vec<u8>) -> (r: Vec<u8>)
    ensures
        r@ == bytes@,
{
    let mut out: Vec<u8> = Vec::new();
    let mut i: usize = 0;
    while i < bytes.len()
        invariant
            i <= bytes@.len(),
            out@ == bytes@.take(i as int),
        decreases bytes@.len() - i,
    {
        out.push(bytes[i]);
        i += 1;
        assert(out@ =~= bytes@.take(i as int));
    }
    assert(out@ =~= bytes@);
    out
}

impl Clone for Arg {
    fn clone(&self) -> (r: Self)
        ensures
            r@ == self@,
    {
        match self {
            Arg::Text(text) => Arg::Text(text.clone()),
            Arg::Raw(bytes) => Arg::Raw(copy_bytes(bytes)),
        }
    }
}

/// What an argument says, where it is text.
pub open spec fn spoken(arg: ArgModel) -> Seq<char> {
    match arg {
        ArgModel::Text(text) => text,
        ArgModel::Raw(_) => Seq::empty(),
    }
}

/// Whether a landing may spend a drafting turn at all.
#[derive(Debug, Clone, Copy, PartialEq, Eq, Structural)]
pub enum Drafting {
    /// Where one is wanted.
    WhereWanted,
    /// Never.
    Declined,
}

/// What a landing's command line said, once this engine's two flags are taken out of it.
#[derive(Debug, PartialEq, Eq)]
pub struct Split {
    /// Everything else, in the order it was typed.
    pub forwarded: Vec<Arg>,
    /// What the graph flag named, the last time it was given.
    pub graph: Option<Arg>,
    /// Whether the caller declined a draft.
    pub drafting: Drafting,
}

/// What a landing's command line said, as contracts speak of it.
#[verifier::ext_equal]
pub ghost struct SplitModel {
    pub forwarded: Seq<ArgModel>,
    pub graph: Option<ArgModel>,
    pub drafting: Drafting,
}

/// An optional argument, as contracts speak of it.
pub open spec fn arg_in(arg: Option<Arg>) -> Option<ArgModel> {
    match arg {
        Some(arg) => Some(arg@),
        None => None,
    }
}

impl View for Split {
    type V = SplitModel;

    open spec fn view(&self) -> SplitModel {
        SplitModel {
            forwarded: arg_models(self.forwarded@),
            graph: arg_in(self.graph),
            drafting: self.drafting,
        }
    }
}

/// A command line nothing was read of.
pub open spec fn unread() -> SplitModel {
    SplitModel { forwarded: Seq::empty(), graph: None, drafting: Drafting::WhereWanted }
}

/// What a graph flag with no value is refused with.
pub open spec fn valueless() -> Seq<char> {
    PR_AUTHOR_GRAPH_FLAG@ + " was given no value: name the graph the body is drafted by, or pass "@
        + NO_DRAFT_FLAG@
}

/// What a command line says: this engine's two flags are taken out before an end of the
/// options only, and an option that takes a value has that value carried with it unread.
pub open spec fn divided(
    valued: Seq<Seq<char>>,
    args: Seq<ArgModel>,
    so_far: SplitModel,
) -> Result<SplitModel, Seq<char>>
    decreases args.len(),
{
    if args.len() == 0 {
        Ok(so_far)
    } else {
        let said = spoken(args[0]);
        let rest = args.skip(1);
        if said == END_OF_OPTIONS@ {
            Ok(SplitModel { forwarded: so_far.forwarded + args, ..so_far })
        } else if said == NO_DRAFT_FLAG@ {
            divided(valued, rest, SplitModel { drafting: Drafting::Declined, ..so_far })
        } else if said == PR_AUTHOR_GRAPH_FLAG@ {
            if rest.len() == 0 {
                Err(valueless())
            } else {
                divided(valued, rest.skip(1), SplitModel { graph: Some(rest[0]), ..so_far })
            }
        } else if starts_with(said, PR_AUTHOR_GRAPH_PREFIX@) {
            divided(
                valued,
                rest,
                SplitModel {
                    graph: Some(
                        ArgModel::Text(
                            said.subrange(PR_AUTHOR_GRAPH_PREFIX@.len() as int, said.len() as int),
                        ),
                    ),
                    ..so_far
                },
            )
        } else if valued.contains(said) && rest.len() > 0 {
            divided(
                valued,
                rest.skip(1),
                SplitModel { forwarded: so_far.forwarded.push(args[0]).push(rest[0]), ..so_far },
            )
        } else {
            divided(
                valued,
                rest,
                SplitModel { forwarded: so_far.forwarded.push(args[0]), ..so_far },
            )
        }
    }
}

fn say<'a>(arg: &'a Arg) -> (r: &'a str)
    ensures
        r@ == spoken(arg@),
{
    match arg {
        Arg::Text(text) => text.as_str(),
        Arg::Raw(_) => {
            proof {
                reveal_strlit("");
                assert(""@ =~= Seq::<char>::empty());
            }
            ""
        },
    }
}

fn listed(list: &Vec<String>, name: &str) -> (r: bool)
    ensures
        r == texts(list@).contains(name@),
{
    let mut i: usize = 0;
    while i < list.len()
        invariant
            i <= list@.len(),
            forall|j: int| 0 <= j < i ==> #[trigger] texts(list@)[j] != name@,
        decreases list@.len() - i,
    {
        if text::same(list[i].as_str(), name) {
            assert(texts(list@)[i as int] == name@);
            return true;
        }
        i += 1;
    }
    false
}

fn after(s: &str, prefix: &str) -> (r: String)
    requires
        starts_with(s@, prefix@),
    ensures
        r@ == s@.subrange(prefix@.len() as int, s@.len() as int),
{
    let chars = text::chars_of(s);
    text::string_of(&chars, prefix.unicode_len(), chars.len())
}

impl Split {
    fn forward(&mut self, arg: &Arg)
        ensures
            final(self)@ == (SplitModel {
                forwarded: old(self)@.forwarded.push(arg@),
                ..old(self)@
            }),
    {
        let copy = arg.clone();
        self.forwarded.push(copy);
        assert(self@.forwarded =~= old(self)@.forwarded.push(arg@));
    }
}

impl Split {
    fn forward_from(&mut self, args: &Vec<Arg>, from: usize)
        requires
            from <= args@.len(),
        ensures
            final(self)@ == (SplitModel {
                forwarded: old(self)@.forwarded + arg_models(args@).skip(from as int),
                ..old(self)@
            }),
    {
        let ghost all = arg_models(args@);
        let ghost before = self@;
        let mut i: usize = from;
        assert(before.forwarded + all.subrange(from as int, from as int) =~= before.forwarded);
        while i < args.len()
            invariant
                all == arg_models(args@),
                all.len() == args@.len(),
                from <= i <= args@.len(),
                self@ == (SplitModel {
                    forwarded: before.forwarded + all.subrange(from as int, i as int),
                    ..before
                }),
            decreases args@.len() - i,
        {
            self.forward(&args[i]);
            proof {
                assert(all[i as int] == args@[i as int]@);
                assert(all.subrange(from as int, i + 1) =~= all.subrange(from as int, i as int).push(
                    all[i as int],
                ));
                assert(self@.forwarded =~= before.forwarded + all.subrange(from as int, i + 1));
            }
            i += 1;
        }
        assert(all.subrange(from as int, all.len() as int) =~= all.skip(from as int));
    }

    /// Read the argument at a position, and the value it takes where it takes one: where
    /// reading goes on, or nothing where there is nothing more to read.
    fn read(&mut self, valued: &Vec<String>, args: &Vec<Arg>, i: usize) -> (r: Result<
        usize,
        Error,
    >)
        requires
            i < args@.len(),
        ensures
            match r {
                Ok(next) => i < next <= args@.len() && divided(
                    texts(valued@),
                    arg_models(args@).skip(i as int),
                    old(self)@,
                ) == divided(texts(valued@), arg_models(args@).skip(next as int), final(self)@),
                Err(error) => error matches Error::Invalid(why) && divided(
                    texts(valued@),
                    arg_models(args@).skip(i as int),
                    old(self)@,
                ) == Err::<SplitModel, Seq<char>>(why@),
            },
    {
        let ghost all = arg_models(args@);
        let ghost here = all.skip(i as int);
        let ghost rest = here.skip(1);
        assert(i < args.len());
        let next: usize = i + 1;
        proof {
            assert(here[0] == args@[i as int]@);
            assert(rest =~= all.skip(next as int));
            if next < args@.len() {
                assert(rest[0] == args@[next as int]@);
                assert(rest.skip(1) =~= all.skip(next + 1));
                assert(next < args.len());
            }
            assert(all.skip(all.len() as int) =~= Seq::empty());
        }
        let said: &str = say(&args[i]);
        if text::same(said, END_OF_OPTIONS) {
            self.forward_from(args, i);
            Ok(args.len())
        } else if text::same(said, NO_DRAFT_FLAG) {
            self.drafting = Drafting::Declined;
            assert(self@ =~= (SplitModel { drafting: Drafting::Declined, ..old(self)@ }));
            Ok(next)
        } else if text::same(said, PR_AUTHOR_GRAPH_FLAG) {
            if next >= args.len() {
                let mut why: String = String::from_str(PR_AUTHOR_GRAPH_FLAG);
                why.append(" was given no value: name the graph the body is drafted by, or pass ");
                why.append(NO_DRAFT_FLAG);
                return Err(Error::Invalid(why));
            }
            self.graph = Some(args[next].clone());
            assert(self@ =~= (SplitModel { graph: Some(rest[0]), ..old(self)@ }));
            Ok(next + 1)
        } else if text::begins(said, PR_AUTHOR_GRAPH_PREFIX) {
            let named = after(said, PR_AUTHOR_GRAPH_PREFIX);
            let ghost spelled = named@;
            self.graph = Some(Arg::Text(named));
            assert(self@ =~= (SplitModel { graph: Some(ArgModel::Text(spelled)), ..old(self)@ }));
            Ok(next)
        } else if next < args.len() && listed(valued, said) {
            self.forward(&args[i]);
            self.forward(&args[next]);
            Ok(next + 1)
        } else {
            self.forward(&args[i]);
            Ok(next)
        }
    }
}

/// Take this engine's two flags out of a landing's command line, given the options of the
/// verb that take a value, leaving every other argument where it was.
pub fn split_by(valued: &Vec<String>, args: &Vec<Arg>) -> (r: Result<Split, Error>)
    ensures
        match divided(texts(valued@), arg_models(args@), unread()) {
            Ok(said) => r matches Ok(split) && split@ == said,
            Err(why) => r matches Err(Error::Invalid(told)) && told@ == why,
        },
{
    let ghost all = arg_models(args@);
    let mut out = Split { forwarded: Vec::new(), graph: None, drafting: Drafting::WhereWanted };
    let mut i: usize = 0;
    assert(out@ =~= unread());
    assert(all.skip(0) =~= all);
    while i < args.len()
        invariant
            all == arg_models(args@),
            i <= args@.len(),
            divided(texts(valued@), all, unread()) == divided(
                texts(valued@),
                all.skip(i as int),
                out@,
            ),
        decreases args@.len() - i,
    {
        match out.read(valued, args, i) {
            Ok(next) => {
                i = next;
            },
            Err(error) => {
                return Err(error);
            },
        }
    }
    assert(all.skip(all.len() as int) =~= Seq::empty());
    Ok(out)
}

/// One argument a verb's parser takes.
#[derive(Debug, PartialEq, Eq)]
pub struct Argument {
    /// Its long spelling.
    pub long: Option<String>,
    /// Its short spelling.
    pub short: Option<char>,
    /// Whether it is told by its position.
    pub positional: bool,
    /// Whether it takes a value.
    pub takes_values: bool,
}

/// An argument a verb's parser takes, as contracts speak of it: its long spelling, its
/// short one, whether it is told by its position, and whether it takes a value.
pub open spec fn argument_of(a: Argument) -> (Option<Seq<char>>, Option<char>, bool, bool) {
    (text_of(a.long), a.short, a.positional, a.takes_values)
}

/// The arguments a verb's parser takes, as contracts speak of them.
pub open spec fn arguments_of(list: Seq<Argument>) -> Seq<
    (Option<Seq<char>>, Option<char>, bool, bool),
> {
    list.map_values(|a: Argument| argument_of(a))
}

/// The arguments a subcommand of `onevcs` takes, in its parser's order: none where it has
/// no such subcommand.
pub uninterp spec fn parser_arguments(verb: Seq<char>) -> Seq<
    (Option<Seq<char>>, Option<char>, bool, bool),
>;

/// `onevcs::cli::Cli::command`, `clap::Command::find_subcommand` and
/// `clap::Command::get_arguments`: what the parser of a verb says of each argument.
#[verifier::external_body]
fn verb_arguments(verb: &str) -> (r: Vec<Argument>)
    ensures
        arguments_of(r@) == parser_arguments(verb@),
{
    let cli = onevcs::cli::Cli::command();
    let Some(command) = cli.find_subcommand(verb) else {
        return Vec::new();
    };
    command.get_arguments().map(|argument| Argument {
        long: argument.get_long().map(str::to_owned),
        short: argument.get_short(),
        positional: argument.is_positional(),
        takes_values: argument.get_action().takes_values(),
    }).collect()
}

/// The spellings of one argument that takes a separate value.
pub open spec fn spellings(a: (Option<Seq<char>>, Option<char>, bool, bool)) -> Seq<Seq<char>> {
    if a.2 || !a.3 {
        Seq::empty()
    } else {
        let long = match a.0 {
            Some(long) => seq!["--"@ + long],
            None => Seq::empty(),
        };
        match a.1 {
            Some(short) => long.push("-"@ + seq![short]),
            None => long,
        }
    }
}

/// Every spelling of an option that takes a separate value.
pub open spec fn valued_spellings(
    list: Seq<(Option<Seq<char>>, Option<char>, bool, bool)>,
) -> Seq<Seq<char>>
    decreases list.len(),
{
    if list.len() == 0 {
        Seq::empty()
    } else {
        valued_spellings(list.drop_last()) + spellings(list.last())
    }
}

/// Every spelling of an option that takes a separate value, among some arguments.
pub fn valued_among(arguments: &Vec<Argument>) -> (r: Vec<String>)
    ensures
        texts(r@) == valued_spellings(arguments_of(arguments@)),
{
    let ghost model = arguments_of(arguments@);
    let mut out: Vec<String> = Vec::new();
    let mut i: usize = 0;
    assert(texts(out@) =~= valued_spellings(model.take(0)));
    while i < arguments.len()
        invariant
            model == arguments_of(arguments@),
            i <= arguments@.len(),
            texts(out@) == valued_spellings(model.take(i as int)),
        decreases arguments@.len() - i,
    {
        let ghost was = texts(out@);
        let ghost one = argument_of(arguments@[i as int]);
        proof {
            assert(model.take(i + 1).drop_last() =~= model.take(i as int));
            assert(model.take(i + 1).last() == one);
        }
        if !arguments[i].positional && arguments[i].takes_values {
            let ghost mut long = Seq::<Seq<char>>::empty();
            if let Some(name) = &arguments[i].long {
                let mut spelled: String = String::from_str("--");
                spelled.append(name.as_str());
                let ghost added = spelled@;
                out.push(spelled);
                proof {
                    long = seq![added];
                }
                assert(texts(out@) =~= was + long);
            }
            assert(texts(out@) =~= was + long);
            if let Some(short) = arguments[i].short {
                let mut spelled: String = String::from_str("-");
                spelled.push(short);
                let ghost added = spelled@;
                assert(added =~= "-"@ + seq![short]);
                out.push(spelled);
                assert(texts(out@) =~= was + long.push(added));
            }
        }
        assert(texts(out@) =~= was + spellings(one));
        i += 1;
    }
    assert(model.take(model.len() as int) =~= model);
    out
}

/// Every spelling of an option a verb takes a separate value for, read off that verb's own
/// parser.
pub fn valued_options(verb: Verb) -> (r: Vec<String>)
    ensures
        texts(r@) == valued_spellings(parser_arguments(verb.forwarded())),
{
    let arguments = verb_arguments(verb.onevcs());
    valued_among(&arguments)
}

/// Take this engine's two flags out of a landing's command line: which options take a
/// value is asked of the verb's own parser.
pub fn split(verb: Verb, args: &Vec<Arg>) -> (r: Result<Split, Error>)
    ensures
        match divided(
            valued_spellings(parser_arguments(verb.forwarded())),
            arg_models(args@),
            unread(),
        ) {
            Ok(said) => r matches Ok(split) && split@ == said,
            Err(why) => r matches Err(Error::Invalid(told)) && told@ == why,
        },
{
    let valued = valued_options(verb);
    split_by(&valued, args)
}

/// The command line a landing is read from by the version-control library's own
/// parser: its program, its verb, and everything this engine forwards.
pub fn land(verb: Verb, split: Split) -> (r: Vec<Arg>)
    ensures
        arg_models(r@) == seq![ArgModel::Text("onevcs"@), ArgModel::Text(verb.forwarded())]
            + split@.forwarded,
{
    let mut argv: Vec<Arg> = Vec::new();
    argv.push(Arg::Text("onevcs".to_owned()));
    argv.push(Arg::Text(verb.onevcs().to_owned()));
    let mut forwarded = split.forwarded;
    let ghost rest = forwarded@;
    argv.append(&mut forwarded);
    assert(arg_models(argv@) =~= seq![
        ArgModel::Text("onevcs"@),
        ArgModel::Text(verb.forwarded()),
    ] + arg_models(rest));
    argv
}

/// An argument that is one of this engine's own.
pub open spec fn is_ours(arg: ArgModel) -> bool {
    let said = spoken(arg);
    ||| said == NO_DRAFT_FLAG@
    ||| said == PR_AUTHOR_GRAPH_FLAG@
    ||| starts_with(said, PR_AUTHOR_GRAPH_PREFIX@)
}

/// A command line with nothing of this engine's on it is forwarded as it was typed.
pub proof fn law_what_is_not_ours_is_forwarded(
    valued: Seq<Seq<char>>,
    args: Seq<ArgModel>,
    so_far: SplitModel,
)
    requires
        forall|i: int| 0 <= i < args.len() ==> !is_ours(#[trigger] args[i]),
    ensures
        divided(valued, args, so_far) == Ok::<SplitModel, Seq<char>>(
            SplitModel { forwarded: so_far.forwarded + args, ..so_far },
        ),
    decreases args.len(),
{
    if args.len() == 0 {
        assert(so_far.forwarded + args =~= so_far.forwarded);
    } else {
        let said = spoken(args[0]);
        let rest = args.skip(1);
        assert(!is_ours(args[0]));
        if said != END_OF_OPTIONS@ {
            if valued.contains(said) && rest.len() > 0 {
                let more = so_far.forwarded.push(args[0]).push(rest[0]);
                let next = SplitModel { forwarded: more, ..so_far };
                assert forall|i: int| 0 <= i < rest.skip(1).len() implies !is_ours(
                    #[trigger] rest.skip(1)[i],
                ) by {
                    assert(rest.skip(1)[i] == args[i + 2]);
                }
                law_what_is_not_ours_is_forwarded(valued, rest.skip(1), next);
                assert(more + rest.skip(1) =~= so_far.forwarded + args);
            } else {
                let more = so_far.forwarded.push(args[0]);
                let next = SplitModel { forwarded: more, ..so_far };
                assert forall|i: int| 0 <= i < rest.len() implies !is_ours(#[trigger] rest[i]) by {
                    assert(rest[i] == args[i + 1]);
                }
                law_what_is_not_ours_is_forwarded(valued, rest, next);
                assert(more + rest =~= so_far.forwarded + args);
            }
        }
    }
}

/// After an end of the options nothing is this engine's.
pub proof fn law_nothing_is_ours_after_the_options(
    valued: Seq<Seq<char>>,
    args: Seq<ArgModel>,
    so_far: SplitModel,
)
    requires
        args.len() > 0,
        spoken(args[0]) == END_OF_OPTIONS@,
    ensures
        divided(valued, args, so_far) == Ok::<SplitModel, Seq<char>>(
            SplitModel { forwarded: so_far.forwarded + args, ..so_far },
        ),
{
}

/// How an identity's changes are published.
#[derive(Debug, Clone, Copy, PartialEq, Eq, Structural)]
pub enum Policy {
    /// Merged in a local checkout and pushed.
    LocalDirect,
    /// A change request is opened and left open.
    ChangeOpen,
    /// A change request is opened and set to merge itself.
    ChangeAuto,
    /// A change request is opened and merged.
    ChangeDirect,
}

impl Policy {
    /// Whether publishing under this policy opens a change request for a body to describe.
    pub fn opens_a_change_request(self) -> (r: bool)
        ensures
            r == (self != Policy::LocalDirect),
    {
        match self {
            Policy::LocalDirect => false,
            Policy::ChangeOpen => true,
            Policy::ChangeAuto => true,
            Policy::ChangeDirect => true,
        }
    }
}

/// What the verb's own parser made of what was forwarded.
#[derive(Debug, PartialEq, Eq)]
pub struct Landing {
    /// The branch to land.
    pub branch: String,
    /// Whether the caller brought a body of their own.
    pub brought: bool,
    /// The policy the caller narrowed the publication to.
    pub narrowed: Option<Policy>,
}

/// What a landing drafts.
#[derive(Debug, PartialEq, Eq)]
pub enum Wanted {
    /// Nothing.
    Nothing,
    /// A body, by the graph of this name.
    Body(String),
}

/// The publication a landing is made under: the one it was narrowed to, or else the
/// identity's own where this build could read it.
pub open spec fn publication(narrowed: Option<Policy>, resolved: Option<Policy>) -> Option<Policy> {
    if narrowed is Some {
        narrowed
    } else {
        resolved
    }
}

/// No body is drafted, and no turn spent: the caller declined one or brought their own, or
/// the publication opens no change request. An identity whose rules this build could not
/// read is drafted for.
pub open spec fn undrafted(
    drafting: Drafting,
    brought: bool,
    published: Option<Policy>,
) -> bool {
    ||| drafting == Drafting::Declined
    ||| brought
    ||| published == Some(Policy::LocalDirect)
}

/// What a landing that would draft and names no graph is refused with.
pub open spec fn graphless(verb: Verb, branch: Seq<char>) -> Seq<char> {
    "`onepipeline "@ + verb.own() + "` would draft the change request's body for "@ + branch
        + ", and no graph to draft it with was named: pass "@ + PR_AUTHOR_GRAPH_FLAG@
        + " <PATH>, bring a body with --body or --body-file, or pass "@ + NO_DRAFT_FLAG@
}

/// Whether a landing drafts a body, and by which graph.
///
/// Where drafting would happen and no graph is named, the landing is refused before
/// anything runs: the caller asked for a body and said nothing that could write one.
pub fn drafted_for(
    verb: Verb,
    landing: &Option<Landing>,
    resolved: Option<Policy>,
    graph: &Option<Arg>,
    drafting: Drafting,
) -> (r: Result<Wanted, Error>)
    ensures
        match *landing {
            None => r matches Err(Error::Invalid(why)) && why@ == "`onevcs "@ + verb.forwarded()
                + "` parsed as a different command"@,
            Some(landing) => if undrafted(
                drafting,
                landing.brought,
                publication(landing.narrowed, resolved),
            ) {
                r == Ok::<Wanted, Error>(Wanted::Nothing)
            } else {
                match *graph {
                    None => r matches Err(Error::Invalid(why)) && why@ == graphless(
                        verb,
                        landing.branch@,
                    ),
                    Some(Arg::Raw(bytes)) => r matches Err(Error::Invalid(why)) && why@
                        == PR_AUTHOR_GRAPH_FLAG@ + " names a path that is not UTF-8: "@
                        + lossy_text(bytes@),
                    Some(Arg::Text(named)) => r matches Ok(Wanted::Body(by)) && by@ == named@,
                }
            },
        },
{
    let landing: &Landing = match landing {
        Some(landing) => landing,
        None => {
            let mut why: String = String::from_str("`onevcs ");
            why.append(verb.onevcs());
            why.append("` parsed as a different command");
            return Err(Error::Invalid(why));
        },
    };
    if drafting == Drafting::Declined || landing.brought {
        return Ok(Wanted::Nothing);
    }
    let published: Option<Policy> = match landing.narrowed {
        Some(policy) => Some(policy),
        None => resolved,
    };
    if let Some(policy) = published {
        if !policy.opens_a_change_request() {
            return Ok(Wanted::Nothing);
        }
    }
    match graph {
        None => {
            let mut why: String = String::from_str("`onepipeline ");
            why.append(verb.as_str());
            why.append("` would draft the change request's body for ");
            why.append(landing.branch.as_str());
            why.append(", and no graph to draft it with was named: pass ");
            why.append(PR_AUTHOR_GRAPH_FLAG);
            why.append(" <PATH>, bring a body with --body or --body-file, or pass ");
            why.append(NO_DRAFT_FLAG);
            Err(Error::Invalid(why))
        },
        Some(Arg::Raw(bytes)) => {
            let said = ledger::read_lossy(bytes, 0, bytes.len());
            assert(bytes@.subrange(0, bytes@.len() as int) =~= bytes@);
            let mut why: String = String::from_str(PR_AUTHOR_GRAPH_FLAG);
            why.append(" names a path that is not UTF-8: ");
            why.append(said.as_str());
            Err(Error::Invalid(why))
        },
        Some(Arg::Text(named)) => Ok(Wanted::Body(named.clone())),
    }
}

/// A caller who declined a draft, brought a body, or publishes where no change request is
/// opened, spends no drafting turn whatever graph is named.
pub proof fn law_no_turn_is_spent_unasked(
    drafting: Drafting,
    brought: bool,
    narrowed: Option<Policy>,
    resolved: Option<Policy>,
)
    ensures
        undrafted(Drafting::Declined, brought, publication(narrowed, resolved)),
        undrafted(drafting, true, publication(narrowed, resolved)),
        undrafted(drafting, brought, publication(Some(Policy::LocalDirect), resolved)),
{
}

/// What a drafting dispatch that could not start ends as.
pub fn could_not_start(why: &str) -> (r: Drafted)
    ensures
        r matches Drafted::Undrafted(Undrafted::Dispatch(said)) && said@
            == "the drafting dispatch could not start: "@ + why@,
{
    let mut said: String = String::from_str("the drafting dispatch could not start: ");
    said.append(why);
    Drafted::Undrafted(Undrafted::Dispatch(said))
}

/// What a landing takes from a drafting turn: the body, or the notice that the branch
/// lands with none.
#[derive(Debug, PartialEq, Eq)]
pub enum Taken {
    /// The body.
    Body(String),
    /// What the operator is told.
    Notice(String),
}

/// What a landing takes from a drafting turn.
pub fn taken(drafted: Drafted, branch: &str) -> (r: Taken)
    ensures
        match drafted {
            Drafted::Body(body) => r == Taken::Body(body),
            Drafted::Undrafted(ending) => r matches Taken::Notice(said) && said@
                == "onepipeline: "@ + ending.reason() + " ("@ + ending.word() + "), so "@ + branch@
                + " lands with no body"@,
        },
{
    match drafted {
        Drafted::Body(body) => Taken::Body(body),
        Drafted::Undrafted(ending) => {
            let why = ending.why();
            let mut said: String = String::from_str("onepipeline: ");
            said.append(why.as_str());
            said.append(" (");
            said.append(ending.ending());
            said.append("), so ");
            said.append(branch);
            said.append(" lands with no body");
            Taken::Notice(said)
        },
    }
}

/// The deaths an operator is told of: only where the drafting dispatch did not run to an
/// answer.
pub fn deaths_told(drafted: &Drafted, deaths: Vec<String>) -> (r: Vec<String>)
    ensures
        r@ == (if *drafted matches Drafted::Undrafted(Undrafted::Dispatch(_)) {
            deaths@
        } else {
            Seq::empty()
        }),
{
    match drafted {
        Drafted::Undrafted(Undrafted::Dispatch(_)) => deaths,
        _ => Vec::new(),
    }
}

/// One field of a death, as it is said.
pub open spec fn stated_one(payload: Seq<(String, Json)>, name: Seq<char>) -> Seq<Seq<char>> {
    match text_in(field_in(payload, name)) {
        Some(value) => if value.len() > 0 {
            seq![name + "="@ + one_lined(value)]
        } else {
            Seq::empty()
        },
        None => Seq::empty(),
    }
}

/// What a death states of itself.
pub open spec fn stated(payload: Seq<(String, Json)>) -> Seq<Seq<char>> {
    stated_one(payload, "rule"@) + stated_one(payload, "cause"@) + stated_one(payload, "detail"@)
}

/// How a death is said.
pub open spec fn death_text(member: Seq<char>, payload: Seq<(String, Json)>) -> Seq<char> {
    if stated(payload).len() == 0 {
        member + " died, and oneagentgraph named no rule, cause or detail for it"@
    } else if flag_in(field_in(payload, "truncated"@)) {
        member + " died: "@ + join(stated(payload), " "@)
            + " (oneagentgraph truncated this detail)"@
    } else {
        member + " died: "@ + join(stated(payload), " "@)
    }
}

fn state(out: &mut Vec<String>, payload: &Vec<(String, Json)>, name: &str)
    ensures
        texts(final(out)@) == texts(old(out)@) + stated_one(payload@, name@),
{
    let ghost was = texts(out@);
    if let Some(value) = json::text_field(payload, name) {
        if value.as_str().unicode_len() > 0 {
            let line = text::one_line(value.as_str());
            let mut one: String = name.to_owned();
            one.append("=");
            one.append(line.as_str());
            let ghost added = one@;
            out.push(one);
            assert(texts(out@) =~= was + seq![added]);
        }
    }
    assert(texts(out@) =~= was + stated_one(payload@, name@));
}

/// One death a drafting graph published, as the line that says what it was classified as —
/// or nothing for any other envelope.
///
/// Read by field, so a newer producer adding one does not cost the operator the diagnosis.
/// A detail the producer marked truncated is said to be.
pub fn death(envelope: &Envelope) -> (r: Option<String>)
    ensures
        text_of(r) == (if envelope.source == Source::Agentgraph && envelope.kind.0@ == event_word(
            GraphEvent::MemberDied,
        ) {
            Some(
                death_text(
                    match carried(envelope.labels@, "member"@, None) {
                        Some(member) => member,
                        None => "a member"@,
                    },
                    envelope.payload@,
                ),
            )
        } else {
            None
        }),
{
    if envelope.source != Source::Agentgraph || !text::same(
        envelope.kind.0.as_str(),
        event_kind(GraphEvent::MemberDied),
    ) {
        return None;
    }
    let member: &str = match extra_of(&envelope.labels, "member") {
        Some(member) => member.as_str(),
        None => "a member",
    };
    let mut said: Vec<String> = Vec::new();
    assert(texts(said@) =~= Seq::empty());
    state(&mut said, &envelope.payload, "rule");
    state(&mut said, &envelope.payload, "cause");
    state(&mut said, &envelope.payload, "detail");
    assert(texts(said@) =~= stated(envelope.payload@));
    assert(texts(said@).len() == said@.len());
    let mut out: String = member.to_owned();
    if said.len() == 0 {
        out.append(" died, and oneagentgraph named no rule, cause or detail for it");
        return Some(out);
    }
    let list = text::joined(&said, " ");
    out.append(" died: ");
    out.append(list.as_str());
    if json::flag_field(&envelope.payload, "truncated") {
        out.append(" (oneagentgraph truncated this detail)");
    }
    Some(out)
}

/// What a drafting turn has made and not yet removed.
#[derive(Debug, PartialEq, Eq)]
pub struct Leftover {
    /// The checkout the worktree was cut from.
    pub checkout: String,
    /// The turn's directory, once it has been created.
    pub dir: Option<String>,
    /// The worktree, once one has been cut.
    pub worktree: Option<String>,
}

/// What is removed, in order: the worktree, and then the directory.
#[derive(Debug, PartialEq, Eq)]
pub struct Removal {
    /// The worktree, by path.
    pub worktree: Option<String>,
    /// The directory.
    pub dir: Option<String>,
}

impl Leftover {
    /// A turn that has made nothing yet.
    pub fn new(checkout: &str) -> (r: Leftover)
        ensures
            r.checkout@ == checkout@,
            r.dir is None,
            r.worktree is None,
    {
        Leftover { checkout: checkout.to_owned(), dir: None, worktree: None }
    }

    /// What is left to remove, once: what is recorded here is only ever what was made, and
    /// whichever of two paths comes second finds nothing left to do.
    pub fn remove(&mut self) -> (r: Removal)
        ensures
            r.worktree == old(self).worktree,
            r.dir == old(self).dir,
            final(self).worktree is None,
            final(self).dir is None,
            final(self).checkout == old(self).checkout,
    {
        let worktree = self.worktree.take();
        let dir = self.dir.take();
        Removal { worktree, dir }
    }
}

/// What the operator is told of a worktree that could not be removed.
pub fn worktree_left(checkout: &str, worktree: &str, why: &str) -> (r: String)
    ensures
        r@ == "onepipeline: the drafting worktree at "@ + worktree@ + " could not be removed from "@
            + checkout@ + ": "@ + why@ + "; remove it with `git -C "@ + checkout@
            + " worktree remove --force "@ + worktree@ + "`"@,
{
    let mut out: String = String::from_str("onepipeline: the drafting worktree at ");
    out.append(worktree);
    out.append(" could not be removed from ");
    out.append(checkout);
    out.append(": ");
    out.append(why);
    out.append("; remove it with `git -C ");
    out.append(checkout);
    out.append(" worktree remove --force ");
    out.append(worktree);
    out.append("`");
    out
}

/// What the operator is told of a directory that could not be removed.
pub fn dir_left(dir: &str, error: &str) -> (r: String)
    ensures
        r@ == "onepipeline: the drafting turn's directory "@ + dir@ + " could not be removed: "@
            + error@ + "; remove it by hand"@,
{
    let mut out: String = String::from_str("onepipeline: the drafting turn's directory ");
    out.append(dir);
    out.append(" could not be removed: ");
    out.append(error);
    out.append("; remove it by hand");
    out
}

/// How many names a drafting turn's directory is tried under.
pub const SCRATCH_TRIES: u32 = 64;

/// What creating a directory came to.
#[derive(Debug, PartialEq, Eq)]
pub enum Made {
    /// It was created.
    Created,
    /// There is one of that name.
    Exists,
    /// It could not be created, and why.
    Failed(String),
}

/// The search for a directory of a drafting turn's own.
#[derive(Debug, PartialEq, Eq)]
pub struct Scratch {
    /// Where it is made.
    pub root: String,
    /// The process that makes it.
    pub pid: u32,
    /// How many names have been tried.
    pub tried: u32,
}

/// What the search for a directory does next.
#[derive(Debug, PartialEq, Eq)]
pub enum Search {
    /// The directory is made.
    Found(String),
    /// Try another name.
    Again,
    /// There is none, and why.
    Failed(String),
}

/// The name a drafting turn's directory is tried under.
pub open spec fn scratch_name(root: Seq<char>, pid: u32, minted: u64) -> Seq<char> {
    joined(root, "onepipeline-draft-"@ + dec(pid as nat) + "-"@ + dec(minted as nat))
}

impl Scratch {
    /// A search that has tried nothing.
    pub fn new(root: &str, pid: u32) -> (r: Scratch)
        ensures
            r.root@ == root@,
            r.pid == pid,
            r.tried == 0,
    {
        Scratch { root: root.to_owned(), pid, tried: 0 }
    }

    /// The name a directory is tried under, by a number no other of this process's has.
    pub fn name(&self, minted: u64) -> (r: String)
        ensures
            r@ == scratch_name(self.root@, self.pid, minted),
    {
        let mut name: String = String::from_str("onepipeline-draft-");
        text::push_dec(&mut name, self.pid as u64);
        name.append("-");
        text::push_dec(&mut name, minted);
        ledger::join_path(self.root.as_str(), name.as_str())
    }

    /// What the search does next, given what creating the directory of that name came to.
    pub fn made(&mut self, name: &str, made: &Made) -> (r: Search)
        requires
            old(self).tried < SCRATCH_TRIES,
        ensures
            final(self).root == old(self).root,
            final(self).pid == old(self).pid,
            final(self).tried == old(self).tried + 1,
            match *made {
                Made::Created => r matches Search::Found(dir) && dir@ == name@,
                Made::Failed(error) => r matches Search::Failed(why) && why@ == name@
                    + " could not be created: "@ + error@,
                Made::Exists => if old(self).tried + 1 < SCRATCH_TRIES {
                    r is Again
                } else {
                    r matches Search::Failed(why) && why@
                        == "no directory for the drafting turn could be created under "@
                        + old(self).root@
                },
            },
    {
        self.tried = self.tried + 1;
        match made {
            Made::Created => Search::Found(name.to_owned()),
            Made::Failed(error) => {
                let mut why: String = name.to_owned();
                why.append(" could not be created: ");
                why.append(error.as_str());
                Search::Failed(why)
            },
            Made::Exists => {
                if self.tried < SCRATCH_TRIES {
                    Search::Again
                } else {
                    let mut why: String = String::from_str(
                        "no directory for the drafting turn could be created under ",
                    );
                    why.append(self.root.as_str());
                    Search::Failed(why)
                }
            },
        }
    }
}

/// The two places a branch is looked for: the checkout's own, and its origin's.
pub fn heads(branch: &str) -> (r: (String, String))
    ensures
        r.0@ == "refs/heads/"@ + branch@,
        r.1@ == "refs/remotes/origin/"@ + branch@,
{
    let mut own: String = String::from_str("refs/heads/");
    own.append(branch);
    let mut origin: String = String::from_str("refs/remotes/origin/");
    origin.append(branch);
    (own, origin)
}

/// What a drafting worktree is cut from.
#[derive(Debug, PartialEq, Eq)]
pub struct Cut {
    /// The branch, as a ref the checkout resolves.
    pub head: String,
    /// The base, as a ref the checkout resolves.
    pub base: String,
    /// The commits the drafter is told of.
    pub range: String,
    /// Where the worktree goes.
    pub worktree: String,
}

/// What a drafting worktree is cut from, given which of the two places holds the branch and
/// what the base is.
///
/// The branch is the checkout's own where it has one, and its origin's where it does not.
pub fn cut(
    branch: &str,
    checkout: &str,
    dir: &str,
    local: bool,
    remote: bool,
    base: Option<String>,
) -> (r: Result<Cut, String>)
    ensures
        if !local && !remote {
            r matches Err(why) && why@ == "the checkout "@ + checkout@ + " has no branch '"@
                + branch@ + "', locally or on its origin"@
        } else {
            match base {
                None => r matches Err(why) && why@ == "the base "@ + branch@
                    + " lands on is unknown: "@ + checkout@
                    + " names no default branch for its origin"@,
                Some(base) => r matches Ok(made) && made.base@ == base@ && made.head@ == (if local {
                    "refs/heads/"@ + branch@
                } else {
                    "refs/remotes/origin/"@ + branch@
                }) && made.range@ == base@ + ".."@ + made.head@ && made.worktree@ == joined(
                    dir@,
                    "branch"@,
                ),
            }
        },
{
    let (own, origin) = heads(branch);
    let head: String = if local {
        own
    } else if remote {
        origin
    } else {
        let mut why: String = String::from_str("the checkout ");
        why.append(checkout);
        why.append(" has no branch '");
        why.append(branch);
        why.append("', locally or on its origin");
        return Err(why);
    };
    match base {
        None => {
            let mut why: String = String::from_str("the base ");
            why.append(branch);
            why.append(" lands on is unknown: ");
            why.append(checkout);
            why.append(" names no default branch for its origin");
            Err(why)
        },
        Some(base) => {
            let mut range: String = base.clone();
            range.append("..");
            range.append(head.as_str());
            Ok(Cut { head, base, range, worktree: ledger::join_path(dir, "branch") })
        },
    }
}

/// What an origin's advertisement opens the line of its default branch with.
pub const ADVERTISED: &'static str = "ref: refs/heads/";

/// Where a character first stands, from a position on.
pub open spec fn char_at(s: Seq<char>, c: char, from: int) -> Option<int>
    decreases s.len() - from,
{
    if from < 0 || from >= s.len() {
        None
    } else if s[from] == c {
        Some(from)
    } else {
        char_at(s, c, from + 1)
    }
}

/// The branch one line of an advertisement names.
pub open spec fn named_on(line: Seq<char>) -> Option<Seq<char>> {
    if starts_with(line, ADVERTISED@) {
        let rest = line.subrange(ADVERTISED@.len() as int, line.len() as int);
        match char_at(rest, '\t', 0) {
            Some(at) => Some("origin/"@ + rest.subrange(0, at)),
            None => None,
        }
    } else {
        None
    }
}

/// The first line that names a branch.
pub open spec fn first_named(lines: Seq<Seq<char>>, from: int) -> Option<Seq<char>>
    decreases lines.len() - from,
{
    if from < 0 || from >= lines.len() {
        None
    } else if named_on(lines[from]) is Some {
        named_on(lines[from])
    } else {
        first_named(lines, from + 1)
    }
}

fn named_by(line: &str) -> (r: Option<String>)
    ensures
        text_of(r) == named_on(line@),
{
    if !text::begins(line, ADVERTISED) {
        return None;
    }
    let rest = after(line, ADVERTISED);
    let chars = text::chars_of(rest.as_str());
    let mut i: usize = 0;
    while i < chars.len()
        invariant
            chars@ == rest@,
            i <= chars@.len(),
            starts_with(line@, ADVERTISED@),
            rest@ == line@.subrange(ADVERTISED@.len() as int, line@.len() as int),
            char_at(rest@, '\t', 0) == char_at(rest@, '\t', i as int),
        decreases chars@.len() - i,
    {
        if chars[i] == '\t' {
            let named = text::string_of(&chars, 0, i);
            let mut out: String = String::from_str("origin/");
            out.append(named.as_str());
            return Some(out);
        }
        i += 1;
    }
    None
}

/// The default branch an origin advertises, as a ref the checkout would resolve.
pub fn advertised(said: &str) -> (r: Option<String>)
    ensures
        text_of(r) == first_named(lines(said@), 0),
{
    let list = text::lines_of(said);
    let ghost model = texts(list@);
    let mut i: usize = 0;
    while i < list.len()
        invariant
            model == texts(list@),
            model == lines(said@),
            i <= list@.len(),
            first_named(model, 0) == first_named(model, i as int),
        decreases list@.len() - i,
    {
        assert(model[i as int] == list@[i as int]@);
        if let Some(named) = named_by(list[i].as_str()) {
            return Some(named);
        }
        i += 1;
    }
    None
}

/// The branches a checkout tracks at its origin, without the record of its default.
pub open spec fn candidates(lines: Seq<Seq<char>>) -> Seq<Seq<char>>
    decreases lines.len(),
{
    if lines.len() == 0 {
        Seq::empty()
    } else if lines.last() == "origin/HEAD"@ {
        candidates(lines.drop_last())
    } else {
        candidates(lines.drop_last()).push(lines.last())
    }
}

/// The one branch a checkout tracks at its origin, when it tracks only one.
pub fn only_tracked(branches: &str) -> (r: Option<String>)
    ensures
        text_of(r) == (if candidates(lines(branches@)).len() == 1 {
            Some(candidates(lines(branches@))[0])
        } else {
            None
        }),
{
    let list = text::lines_of(branches);
    let ghost model = texts(list@);
    let mut kept: Vec<String> = Vec::new();
    let mut i: usize = 0;
    assert(texts(kept@) =~= candidates(model.take(0)));
    while i < list.len()
        invariant
            model == texts(list@),
            i <= list@.len(),
            texts(kept@) == candidates(model.take(i as int)),
        decreases list@.len() - i,
    {
        proof {
            assert(model.take(i + 1).drop_last() =~= model.take(i as int));
            assert(model.take(i + 1).last() == list@[i as int]@);
        }
        if !text::same(list[i].as_str(), "origin/HEAD") {
            let ghost was = texts(kept@);
            kept.push(list[i].clone());
            assert(texts(kept@) =~= was.push(list@[i as int]@));
        }
        i += 1;
    }
    assert(model.take(model.len() as int) =~= model);
    assert(texts(kept@).len() == kept@.len());
    if kept.len() == 1 {
        assert(texts(kept@)[0] == kept@[0]@);
        Some(kept[0].clone())
    } else {
        None
    }
}

/// The base a branch lands on, asked the way the landing itself asks it: the checkout's own
/// record of its origin's default branch, then the one the origin advertises where the
/// checkout has it, then the one branch the checkout tracks there.
pub fn base(
    recorded: Option<String>,
    advertised: Option<String>,
    advertised_is_here: bool,
    branches: Option<&str>,
) -> (r: Option<String>)
    ensures
        text_of(r) == (if recorded is Some {
            text_of(recorded)
        } else if advertised is Some && advertised_is_here {
            text_of(advertised)
        } else {
            match branches {
                Some(branches) => if candidates(lines(branches@)).len() == 1 {
                    Some(candidates(lines(branches@))[0])
                } else {
                    None
                },
                None => None,
            }
        }),
{
    if recorded.is_some() {
        return recorded;
    }
    if advertised.is_some() && advertised_is_here {
        return advertised;
    }
    match branches {
        Some(branches) => only_tracked(branches),
        None => None,
    }
}

/// A git command as a refusal names it.
pub open spec fn git_named(args: Seq<Seq<char>>, dir: Seq<char>) -> Seq<char> {
    "`git "@ + join(args, " "@) + "` in "@ + dir
}

/// What running a git command came to.
#[derive(Debug, PartialEq, Eq)]
pub enum Ran {
    /// It could not be run, and why.
    Unrun(String),
    /// It exited otherwise than zero.
    Failed {
        /// Its code, where the host reported one.
        code: Option<i32>,
        /// What it said.
        stderr: Vec<u8>,
    },
    /// It answered text.
    Answered(String),
    /// It answered bytes that are not text, and why they are not.
    Garbled(String),
}

/// A git command's answer, trimmed, or its refusal.
pub open spec fn git_answer(args: Seq<Seq<char>>, dir: Seq<char>, ran: Ran) -> Result<
    Seq<char>,
    Seq<char>,
> {
    let named = git_named(args, dir);
    match ran {
        Ran::Unrun(error) => Err(named + " could not be run: "@ + error@),
        Ran::Failed { code, stderr } => Err(
            named + " exited "@ + dec_int(
                match code {
                    Some(code) => code as int,
                    None => -1,
                },
            ) + ": "@ + one_lined(lossy_text(stderr@)),
        ),
        Ran::Answered(said) => Ok(trim(said@)),
        Ran::Garbled(error) => Err(named + " answered bytes that are not UTF-8: "@ + error@),
    }
}

/// A git command's answer, trimmed, or its refusal.
///
/// Its answer is read as text or not at all: it is what a drafter is handed, and a lossy
/// decode would hand the drafter text nobody wrote. What it said on its way out is relayed
/// lossily, because it is a sentence for a person.
pub fn git_in(dir: &str, args: &Vec<String>, ran: &Ran) -> (r: Result<String, String>)
    ensures
        match git_answer(texts(args@), dir@, *ran) {
            Ok(said) => r matches Ok(answer) && answer@ == said,
            Err(why) => r matches Err(told) && told@ == why,
        },
{
    if let Ran::Answered(said) = ran {
        return Ok(text::trimmed(said.as_str()));
    }
    let words = text::joined(args, " ");
    let mut why: String = String::from_str("`git ");
    why.append(words.as_str());
    why.append("` in ");
    why.append(dir);
    match ran {
        Ran::Unrun(error) => {
            why.append(" could not be run: ");
            why.append(error.as_str());
        },
        Ran::Failed { code, stderr } => {
            let said = ledger::read_lossy(stderr, 0, stderr.len());
            assert(stderr@.subrange(0, stderr@.len() as int) =~= stderr@);
            let line = text::one_line(said.as_str());
            let code: i64 = match code {
                Some(code) => *code as i64,
                None => -1,
            };
            let number = text::dec_int_text(code);
            why.append(" exited ");
            why.append(number.as_str());
            why.append(": ");
            why.append(line.as_str());
        },
        Ran::Garbled(error) => {
            why.append(" answered bytes that are not UTF-8: ");
            why.append(error.as_str());
        },
        Ran::Answered(_) => {},
    }
    Err(why)
}

/// The names of the two verbs, here and where they are forwarded, and of this engine's two
/// flags.
pub proof fn law_the_words_of_a_landing()
    ensures
        Verb::PublishBranch.forwarded() == "publish-branch"@,
        Verb::PublishBranch.own() == "publish-branch"@,
        Verb::Recover.forwarded() == "recover"@,
        Verb::Recover.own() == "repo-recover"@,
        PR_AUTHOR_GRAPH_FLAG@ == "--pr-author-graph"@,
        PR_AUTHOR_GRAPH_PREFIX@ == "--pr-author-graph="@,
        NO_DRAFT_FLAG@ == "--no-draft"@,
        END_OF_OPTIONS@ == "--"@,
        ADVERTISED@ == "ref: refs/heads/"@,
        SCRATCH_TRIES == 64,
{
    reveal_strlit("--pr-author-graph");
    reveal_strlit("--pr-author-graph=");
    reveal_strlit("--no-draft");
    reveal_strlit("--");
    reveal_strlit("ref: refs/heads/");
}

proof fn lemma_flags_differ()
    ensures
        "--"@ != "--no-draft"@,
        "--"@ != "--pr-author-graph"@,
        "--no-draft"@ != "--pr-author-graph"@,
        !starts_with("--no-draft"@, "--pr-author-graph="@),
        !starts_with("--pr-author-graph"@, "--pr-author-graph="@),
        !starts_with("--"@, "--pr-author-graph="@),
        "--pr-author-graph="@.len() == 18,
{
    reveal_strlit("--pr-author-graph");
    reveal_strlit("--pr-author-graph=");
    reveal_strlit("--no-draft");
    reveal_strlit("--");
    assert("--"@.len() == 2 && "--no-draft"@.len() == 10);
    assert("--pr-author-graph"@.len() == 17 && "--pr-author-graph="@.len() == 18);
}

/// How this engine's flags are taken out of a command line, wherever in front of the end
/// of the options they stand: `--no-draft` declines, `--pr-author-graph` takes the argument
/// behind it, or what stands behind its equals sign, and the last one given counts. With
/// nothing behind it it is refused.
pub proof fn law_how_the_two_flags_are_taken_out(
    valued: Seq<Seq<char>>,
    rest: Seq<ArgModel>,
    so_far: SplitModel,
    value: ArgModel,
    written: Seq<char>,
)
    ensures
        divided(valued, seq![ArgModel::Text("--no-draft"@)] + rest, so_far) == divided(
            valued,
            rest,
            SplitModel { drafting: Drafting::Declined, ..so_far },
        ),
        divided(valued, seq![ArgModel::Text("--pr-author-graph"@), value] + rest, so_far) == divided(
            valued,
            rest,
            SplitModel { graph: Some(value), ..so_far },
        ),
        divided(valued, seq![ArgModel::Text("--pr-author-graph"@)], so_far) is Err,
        divided(
            valued,
            seq![ArgModel::Text("--pr-author-graph="@ + written)] + rest,
            so_far,
        ) == divided(
            valued,
            rest,
            SplitModel { graph: Some(ArgModel::Text(written)), ..so_far },
        ),
{
    law_the_words_of_a_landing();
    lemma_flags_differ();
    let a = seq![ArgModel::Text("--no-draft"@)] + rest;
    assert(a[0] == ArgModel::Text("--no-draft"@));
    assert(a.skip(1) =~= rest);
    let b = seq![ArgModel::Text("--pr-author-graph"@), value] + rest;
    assert(b[0] == ArgModel::Text("--pr-author-graph"@));
    assert(b.skip(1)[0] == value);
    assert(b.skip(1).skip(1) =~= rest);
    let c = seq![ArgModel::Text("--pr-author-graph"@)];
    assert(c[0] == ArgModel::Text("--pr-author-graph"@));
    assert(c.skip(1).len() == 0);
    let said = "--pr-author-graph="@ + written;
    let d = seq![ArgModel::Text(said)] + rest;
    assert(d[0] == ArgModel::Text(said));
    assert(d.skip(1) =~= rest);
    assert(said.subrange(0, 18) =~= "--pr-author-graph="@);
    assert(said.subrange(18, said.len() as int) =~= written);
    assert(starts_with(said, "--pr-author-graph="@));
    assert(said.len() >= 18);
    reveal_strlit("--");
    reveal_strlit("--no-draft");
    reveal_strlit("--pr-author-graph");
    assert("--"@.len() == 2 && "--no-draft"@.len() == 10 && "--pr-author-graph"@.len() == 17);
}

/// An option that takes a value has it carried along unread, whatever it says — even where
/// it says one of this engine's flags — and any other argument is forwarded as it stands.
pub proof fn law_a_value_is_carried_with_its_option(
    valued: Seq<Seq<char>>,
    rest: Seq<ArgModel>,
    so_far: SplitModel,
    option: Seq<char>,
    value: ArgModel,
)
    requires
        option != "--"@,
        option != "--no-draft"@,
        option != "--pr-author-graph"@,
        !starts_with(option, "--pr-author-graph="@),
    ensures
        valued.contains(option) ==> divided(
            valued,
            seq![ArgModel::Text(option), value] + rest,
            so_far,
        ) == divided(
            valued,
            rest,
            SplitModel {
                forwarded: so_far.forwarded + seq![ArgModel::Text(option), value],
                ..so_far
            },
        ),
        !valued.contains(option) ==> divided(
            valued,
            seq![ArgModel::Text(option)] + rest,
            so_far,
        ) == divided(
            valued,
            rest,
            SplitModel { forwarded: so_far.forwarded + seq![ArgModel::Text(option)], ..so_far },
        ),
{
    law_the_words_of_a_landing();
    let a = seq![ArgModel::Text(option), value] + rest;
    assert(a[0] == ArgModel::Text(option));
    assert(a.skip(1)[0] == value);
    assert(a.skip(1).skip(1) =~= rest);
    assert(so_far.forwarded.push(ArgModel::Text(option)).push(value) =~= so_far.forwarded + seq![
        ArgModel::Text(option),
        value,
    ]);
    let b = seq![ArgModel::Text(option)] + rest;
    assert(b[0] == ArgModel::Text(option));
    assert(b.skip(1) =~= rest);
    assert(so_far.forwarded.push(ArgModel::Text(option)) =~= so_far.forwarded + seq![
        ArgModel::Text(option),
    ]);
}

/// Behind `--` everything is forwarded, the `--` with it.
pub proof fn law_the_end_of_the_options_ends_the_reading(
    valued: Seq<Seq<char>>,
    rest: Seq<ArgModel>,
    so_far: SplitModel,
)
    ensures
        divided(valued, seq![ArgModel::Text("--"@)] + rest, so_far) == Ok::<SplitModel, Seq<char>>(
            SplitModel {
                forwarded: so_far.forwarded + (seq![ArgModel::Text("--"@)] + rest),
                ..so_far
            },
        ),
{
    law_the_words_of_a_landing();
    let a = seq![ArgModel::Text("--"@)] + rest;
    assert(a[0] == ArgModel::Text("--"@));
}

/// Which spellings carry a value: the long and the short one of every option that takes
/// values, and none of what is told by its position.
pub proof fn law_which_spellings_carry_a_value(
    list: Seq<(Option<Seq<char>>, Option<char>, bool, bool)>,
    said: Seq<char>,
)
    ensures
        valued_spellings(list).contains(said) <==> exists|i: int|
            0 <= i < list.len() && !(#[trigger] list[i]).2 && list[i].3 && (list[i].0 is Some
                && said == "--"@ + list[i].0->0 || list[i].1 is Some && said == "-"@ + seq![
                list[i].1->0,
            ]),
    decreases list.len(),
{
    if list.len() > 0 {
        let before = list.drop_last();
        let last = list.last();
        law_which_spellings_carry_a_value(before, said);
        let a = valued_spellings(before);
        let b = spellings(last);
        let all = a + b;
        assert(list[list.len() - 1] == last);
        let long = match last.0 {
            Some(long) => seq!["--"@ + long],
            None => Seq::empty(),
        };
        if !last.2 && last.3 {
            if last.0 is Some {
                assert(b[0] == "--"@ + last.0->0);
            }
            if last.1 is Some {
                assert(b[long.len() as int] == "-"@ + seq![last.1->0]);
            }
        }
        assert(b.contains(said) <==> !last.2 && last.3 && (last.0 is Some && said == "--"@
            + last.0->0 || last.1 is Some && said == "-"@ + seq![last.1->0])) by {
            if b.contains(said) {
                let k = choose|k: int| 0 <= k < b.len() && b[k] == said;
                assert(k < long.len() || k == long.len());
            }
        }
        assert(all.contains(said) <==> a.contains(said) || b.contains(said)) by {
            if a.contains(said) {
                let k = choose|k: int| 0 <= k < a.len() && a[k] == said;
                assert(all[k] == said);
            }
            if b.contains(said) {
                let k = choose|k: int| 0 <= k < b.len() && b[k] == said;
                assert(all[a.len() + k] == said);
            }
            if all.contains(said) {
                let k = choose|k: int| 0 <= k < all.len() && all[k] == said;
                if k < a.len() {
                    assert(a[k] == said);
                } else {
                    assert(b[k - a.len()] == said);
                }
            }
        }
        if a.contains(said) {
            let i = choose|i: int|
                0 <= i < before.len() && !(#[trigger] before[i]).2 && before[i].3 && (before[i].0
                    is Some && said == "--"@ + before[i].0->0 || before[i].1 is Some && said
                    == "-"@ + seq![before[i].1->0]);
            assert(list[i] == before[i]);
        }
        if exists|i: int|
            0 <= i < list.len() && !(#[trigger] list[i]).2 && list[i].3 && (list[i].0 is Some
                && said == "--"@ + list[i].0->0 || list[i].1 is Some && said == "-"@ + seq![
                list[i].1->0,
            ]) {
            let i = choose|i: int|
                0 <= i < list.len() && !(#[trigger] list[i]).2 && list[i].3 && (list[i].0 is Some
                    && said == "--"@ + list[i].0->0 || list[i].1 is Some && said == "-"@ + seq![
                    list[i].1->0,
                ]);
            if i < before.len() {
                assert(before[i] == list[i]);
            }
        }
    }
}

/// When no turn is spent on a body: a draft was declined, a body was brought, or the
/// publication — the one the caller narrowed it to, else the identity's own — opens no
/// change request. In every other case one is.
pub proof fn law_when_a_body_is_drafted(
    drafting: Drafting,
    brought: bool,
    narrowed: Option<Policy>,
    resolved: Option<Policy>,
)
    ensures
        undrafted(drafting, brought, publication(narrowed, resolved)) <==> drafting
            == Drafting::Declined || brought || narrowed == Some(Policy::LocalDirect) || (narrowed
            is None && resolved == Some(Policy::LocalDirect)),
{
}

/// A death states its rule, its cause and its detail, in that order, each by its name and
/// only where it says something.
pub proof fn law_what_a_death_states(payload: Seq<(String, Json)>)
    ensures
        ({
            let rule = text_in(field_in(payload, "rule"@));
            let cause = text_in(field_in(payload, "cause"@));
            let detail = text_in(field_in(payload, "detail"@));
            let a = if rule is Some && rule->0.len() > 0 { 1int } else { 0int };
            let b = if cause is Some && cause->0.len() > 0 { 1int } else { 0int };
            let c = if detail is Some && detail->0.len() > 0 { 1int } else { 0int };
            let told = stated(payload);
            &&& told.len() == a + b + c
            &&& a == 1 ==> told[0] == "rule"@ + "="@ + one_lined(rule->0)
            &&& b == 1 ==> told[a] == "cause"@ + "="@ + one_lined(cause->0)
            &&& c == 1 ==> told[a + b] == "detail"@ + "="@ + one_lined(detail->0)
        }),
{
}

/// How a death is said: whose, with what it states, and that its detail was cut where it
/// was.
pub proof fn law_how_a_death_is_said(member: Seq<char>, payload: Seq<(String, Json)>)
    ensures
        stated(payload).len() == 0 ==> death_text(member, payload) == member
            + " died, and oneagentgraph named no rule, cause or detail for it"@,
        stated(payload).len() > 0 ==> ({
            let cut = field_in(payload, "truncated"@) == Some(Json::Bool(true));
            death_text(member, payload) == member + " died: "@ + join(stated(payload), " "@) + (
            if cut {
                " (oneagentgraph truncated this detail)"@
            } else {
                Seq::empty()
            })
        }),
{
    if stated(payload).len() > 0 {
        let plain = member + " died: "@ + join(stated(payload), " "@);
        assert(plain + Seq::<char>::empty() =~= plain);
    }
}

proof fn lemma_char_at(s: Seq<char>, c: char, from: int, at: int)
    requires
        0 <= from <= at < s.len(),
        s[at] == c,
        forall|i: int| from <= i < at ==> #[trigger] s[i] != c,
    ensures
        char_at(s, c, from) == Some(at),
    decreases at - from,
{
    if from < at {
        assert(s[from] != c);
        lemma_char_at(s, c, from + 1, at);
    }
}

proof fn lemma_no_char_at(s: Seq<char>, c: char, from: int)
    requires
        0 <= from,
        !s.contains(c),
    ensures
        char_at(s, c, from) is None,
    decreases s.len() - from,
{
    if from < s.len() {
        assert(s.contains(s[from]));
        lemma_no_char_at(s, c, from + 1);
    }
}

/// An origin advertises its default branch as a symbolic ref: what stands between the
/// opening and the first tab is the branch, at the origin. A line that opens otherwise, or
/// holds no tab, names none.
pub proof fn law_how_a_default_branch_is_advertised(branch: Seq<char>, rest: Seq<char>)
    requires
        !branch.contains('\t'),
    ensures
        named_on("ref: refs/heads/"@ + branch + seq!['\t'] + rest) == Some("origin/"@ + branch),
        named_on("ref: refs/heads/"@ + branch) is None,
        !starts_with(rest, "ref: refs/heads/"@) ==> named_on(rest) is None,
{
    law_the_words_of_a_landing();
    let open = "ref: refs/heads/"@;
    let line = open + branch + seq!['\t'] + rest;
    let n = open.len() as int;
    assert(line.subrange(0, n) =~= open);
    let tail = line.subrange(n, line.len() as int);
    assert(tail =~= branch + seq!['\t'] + rest);
    assert(tail[branch.len() as int] == '\t');
    assert forall|i: int| 0 <= i < branch.len() implies #[trigger] tail[i] != '\t' by {
        assert(branch.contains(branch[i]));
    }
    lemma_char_at(tail, '\t', 0, branch.len() as int);
    assert(tail.subrange(0, branch.len() as int) =~= branch);
    let bare = open + branch;
    assert(bare.subrange(0, n) =~= open);
    assert(bare.subrange(n, bare.len() as int) =~= branch);
    lemma_no_char_at(branch, '\t', 0);
}

/// The first line that names a branch is the one that counts.
pub proof fn law_the_first_advertised_branch_counts(lines: Seq<Seq<char>>, from: int, at: int)
    requires
        0 <= from <= at <= lines.len(),
        forall|j: int| from <= j < at ==> named_on(#[trigger] lines[j]) is None,
    ensures
        at == lines.len() ==> first_named(lines, from) is None,
        at < lines.len() && named_on(lines[at]) is Some ==> first_named(lines, from) == named_on(
            lines[at],
        ),
    decreases at - from,
{
    if from < at {
        assert(named_on(lines[from]) is None);
        law_the_first_advertised_branch_counts(lines, from + 1, at);
    }
}

/// The branches a checkout tracks are all it lists but the record of its default.
pub proof fn law_the_record_of_the_default_is_no_branch(lines: Seq<Seq<char>>)
    ensures
        candidates(lines) == lines.filter(|l: Seq<char>| l != "origin/HEAD"@),
    decreases lines.len(),
{
    reveal(Seq::filter);
    if lines.len() > 0 {
        law_the_record_of_the_default_is_no_branch(lines.drop_last());
    }
}

/// A git command answers only where it ran, succeeded and answered text, and then with
/// that text trimmed; every refusal names the command and where it ran.
pub proof fn law_when_a_git_command_answers(args: Seq<Seq<char>>, dir: Seq<char>, ran: Ran)
    ensures
        git_answer(args, dir, ran) is Ok <==> ran is Answered,
        ran matches Ran::Answered(said) ==> git_answer(args, dir, ran) == Ok::<
            Seq<char>,
            Seq<char>,
        >(trim(said@)),
        git_answer(args, dir, ran) matches Err(why) ==> why.len() >= git_named(args, dir).len()
            && why.take(git_named(args, dir).len() as int) == "`git "@ + join(args, " "@)
            + "` in "@ + dir,
{
    let named = git_named(args, dir);
    match git_answer(args, dir, ran) {
        Err(why) => {
            assert(why.take(named.len() as int) =~= named);
        },
        Ok(_) => {},
    }
}

/// What a command line said is seen whole.
pub proof fn law_a_command_line_is_seen_whole(value: Split)
    ensures
        value@.forwarded.len() == value.forwarded@.len(),
        forall|i: int| 0 <= i < value.forwarded@.len() ==> #[trigger] value@.forwarded[i] == value.forwarded@[i]@,
        value.graph is None <==> value@.graph is None,
        value.graph matches Some(s) ==> value@.graph == Some(s@),
        value@.drafting == value.drafting,
{
}

} // verus!
