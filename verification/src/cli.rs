//! The command line: arguments, session identifiers, and what a line of input means.

use crate::ident::{fresh_id, is_random_uuid};
use crate::message::{answer_due, plain_body, BodyView, Context, Message, MessageView, Role};
use crate::text::{
    decimal, eq_ignore_ascii_case, from_chars, lower, parse_unsigned, parsed_unsigned, same_text,
    texts, to_chars, to_decimal, trim, trimmed,
};
use vstd::prelude::*;
use vstd::string::*;

verus! {

/// After how many idle seconds the sandbox is reclaimed where nothing is configured.
pub const DEFAULT_IDLE_SECS: u64 = 1800;

/// What the arguments of the program ask for.
#[derive(Debug)]
pub struct Args {
    /// The session to resume.
    pub resume: Option<String>,
    /// Resume the session modified last.
    pub continue_latest: bool,
    /// List the sessions.
    pub list: bool,
    /// The arguments that mean nothing.
    pub ignored: Vec<String>,
}

/// What [`Args`] hold.
pub struct ArgsView {
    pub resume: Option<Seq<char>>,
    pub continue_latest: bool,
    pub list: bool,
    pub ignored: Seq<Seq<char>>,
}

impl View for Args {
    type V = ArgsView;

    open spec fn view(&self) -> ArgsView {
        ArgsView {
            resume: match self.resume {
                Some(id) => Some(id@),
                None => None,
            },
            continue_latest: self.continue_latest,
            list: self.list,
            ignored: texts(self.ignored@),
        }
    }
}

impl Default for Args {
    fn default() -> (r: Self)
        ensures
            r@ == no_args(),
    {
        let r = Args { resume: None, continue_latest: false, list: false, ignored: Vec::new() };
        assert(r@.ignored =~= Seq::empty());
        r
    }
}

/// Nothing is asked for.
pub open spec fn no_args() -> ArgsView {
    ArgsView { resume: None, continue_latest: false, list: false, ignored: Seq::empty() }
}

/// What is asked for once `args` are read, given what was asked for before. The argument after
/// `--resume` is a session, whatever it looks like; of several the last counts.
pub open spec fn read_args(so_far: ArgsView, args: Seq<Seq<char>>) -> ArgsView
    decreases args.len(),
{
    if args.len() == 0 {
        so_far
    } else if args[0] == "--resume"@ || args[0] == "-r"@ {
        if args.len() == 1 {
            ArgsView { resume: None, ..so_far }
        } else {
            read_args(ArgsView { resume: Some(args[1]), ..so_far }, args.skip(2))
        }
    } else if args[0] == "--continue"@ || args[0] == "-c"@ {
        read_args(ArgsView { continue_latest: true, ..so_far }, args.skip(1))
    } else if args[0] == "--list"@ || args[0] == "-l"@ {
        read_args(ArgsView { list: true, ..so_far }, args.skip(1))
    } else {
        read_args(ArgsView { ignored: so_far.ignored.push(args[0]), ..so_far }, args.skip(1))
    }
}

/// Reads the arguments that follow the name of the program.
pub fn parse_args(arguments: &Vec<String>) -> (r: Args)
    ensures
        r@ == read_args(no_args(), texts(arguments@)),
{
    let ghost all = texts(arguments@);
    let mut args = Args::default();
    let mut i: usize = 0;
    assert(all.skip(0) =~= all);
    while i < arguments.len()
        invariant
            i <= arguments.len(),
            all == texts(arguments@),
            read_args(no_args(), all) == read_args(args@, all.skip(i as int)),
        decreases arguments.len() - i,
    {
        let arg = arguments[i].as_str();
        let ghost rest = all.skip(i as int);
        let ghost before = args@;
        assert(rest[0] == arg@);
        assert(rest.skip(1) =~= all.skip(i + 1));
        if same_text(arg, "--resume") || same_text(arg, "-r") {
            if i + 1 == arguments.len() {
                args.resume = None;
                assert(args@ == (ArgsView { resume: None, ..before }));
                assert(all.skip(i + 1) =~= Seq::empty());
            } else {
                args.resume = Some(arguments[i + 1].clone());
                i = i + 1;
                assert(rest[1] == arguments@[i as int]@);
                assert(args@ == (ArgsView { resume: Some(rest[1]), ..before }));
                assert(rest.skip(2) =~= all.skip(i + 1));
            }
        } else if same_text(arg, "--continue") || same_text(arg, "-c") {
            args.continue_latest = true;
        } else if same_text(arg, "--list") || same_text(arg, "-l") {
            args.list = true;
        } else {
            args.ignored.push(arguments[i].clone());
            assert(args@.ignored =~= before.ignored.push(arg@));
        }
        i = i + 1;
    }
    assert(all.skip(i as int) =~= Seq::empty());
    args
}

/// How the program starts.
#[derive(Debug)]
pub enum Startup {
    /// List the sessions and leave.
    List,
    /// Resume this session.
    Resume(String),
    /// Resume the session modified last.
    ContinueLatest,
    /// Begin a new session.
    New,
}

/// What a [`Startup`] holds.
pub enum StartupView {
    List,
    Resume(Seq<char>),
    ContinueLatest,
    New,
}

impl View for Startup {
    type V = StartupView;

    open spec fn view(&self) -> StartupView {
        match *self {
            Startup::List => StartupView::List,
            Startup::Resume(id) => StartupView::Resume(id@),
            Startup::ContinueLatest => StartupView::ContinueLatest,
            Startup::New => StartupView::New,
        }
    }
}

/// How the program starts where this is asked for.
pub open spec fn startup_of(args: ArgsView) -> StartupView {
    if args.list {
        StartupView::List
    } else {
        match args.resume {
            Some(id) => StartupView::Resume(id),
            None => if args.continue_latest {
                StartupView::ContinueLatest
            } else {
                StartupView::New
            },
        }
    }
}

impl Args {
    /// How the program starts: a list comes before everything else, a named session before the
    /// last one.
    pub fn startup(self) -> (r: Startup)
        ensures
            match r {
                Startup::List => self@.list,
                Startup::Resume(id) => !self@.list && self@.resume == Some(id@),
                Startup::ContinueLatest => !self@.list && self@.resume is None
                    && self@.continue_latest,
                Startup::New => !self@.list && self@.resume is None && !self@.continue_latest,
            },
            r@ == startup_of(self@),
    {
        if self.list {
            return Startup::List;
        }
        match self.resume {
            Some(id) => Startup::Resume(id),
            None => if self.continue_latest {
                Startup::ContinueLatest
            } else {
                Startup::New
            },
        }
    }
}

/// The identifier of a session begun at `secs` seconds after the epoch: the time, and the first
/// group of a random identifier.
pub open spec fn session_id(secs: nat, random: Seq<char>) -> Seq<char> {
    decimal(secs) + "-"@ + random.take(8)
}

/// The identifier of a session, from the time at which it begins and a random identifier.
pub fn compose_session_id(secs: u64, random: &str) -> (r: String)
    requires
        is_random_uuid(random@),
    ensures
        r@ == session_id(secs as nat, random@),
{
    let chars = to_chars(random);
    let mut r = to_decimal(secs);
    r.append("-");
    r.append(from_chars(&chars, 0, 8).as_str());
    assert(chars@.subrange(0, 8) =~= random@.take(8));
    r
}

/// A new identifier for a session that begins at `secs` seconds after the epoch.
pub fn new_session_id(secs: u64) -> (r: String)
    ensures
        exists|random: Seq<char>| #[trigger]
            is_random_uuid(random) && r@ == session_id(secs as nat, random),
{
    let random = fresh_id();
    compose_session_id(secs, random.as_str())
}

/// After how many idle seconds the sandbox is reclaimed: as configured, or the default where the
/// configured text is no number; never where it is 0.
pub open spec fn idle_timeout(configured: Option<Seq<char>>) -> Option<nat> {
    let secs = match configured {
        Some(text) => match parsed_unsigned(text, u64::MAX as nat) {
            Some(secs) => secs,
            None => DEFAULT_IDLE_SECS as nat,
        },
        None => DEFAULT_IDLE_SECS as nat,
    };
    if secs > 0 {
        Some(secs)
    } else {
        None
    }
}

/// After how many idle seconds the sandbox is reclaimed.
pub fn sandbox_idle_timeout_secs(configured: Option<&str>) -> (r: Option<u64>)
    ensures
        idle_timeout(
            match configured {
                Some(text) => Some(text@),
                None => None,
            },
        ) == match r {
            Some(secs) => Some(secs as nat),
            None => None,
        },
{
    let secs: u64 = match configured {
        Some(text) => match parse_unsigned(text, u64::MAX) {
            Some(secs) => secs,
            None => DEFAULT_IDLE_SECS,
        },
        None => DEFAULT_IDLE_SECS,
    };
    if secs > 0 {
        Some(secs)
    } else {
        None
    }
}

/// What a line of input leads to.
#[derive(Debug, Clone, Copy, PartialEq, Eq, Structural)]
pub enum Turn {
    /// The human leaves.
    Quit,
    /// There is nothing on the line.
    Skip,
    /// The human said something: the engine has the word.
    Run,
}

/// The text ends the program.
pub open spec fn is_farewell(text: Seq<char>) -> bool {
    lower(text) == "exit"@ || lower(text) == "quit"@
}

/// What a line of input leads to.
pub open spec fn turn_of(line: Seq<char>) -> Turn {
    if is_farewell(trimmed(line)) {
        Turn::Quit
    } else if trimmed(line).len() == 0 {
        Turn::Skip
    } else {
        Turn::Run
    }
}

/// What a line of input becomes in the transcript: the answer where one is due, hidden from
/// both sides, else what the human says.
pub open spec fn input_body(messages: Seq<MessageView>, line: Seq<char>) -> BodyView {
    plain_body(Role::User, trimmed(line), !answer_due(messages), !answer_due(messages))
}

/// Takes a line of input into the transcript: as the answer where one is due, else as what
/// the human says.
pub fn take_input(ctx: &mut Context, line: &str) -> (r: Turn)
    ensures
        r == turn_of(line@),
        r != Turn::Run ==> final(ctx)@ == old(ctx)@,
        r == Turn::Run ==> exists|id: Seq<char>| #[trigger]
            is_random_uuid(id) && final(ctx)@ == old(ctx)@.push(
                MessageView { id, body: input_body(old(ctx)@, line@) },
            ),
{
    let input = trim(line);
    let input = input.as_str();
    proof {
        reveal_strlit("exit");
        reveal_strlit("quit");
        assert(lower("exit"@) =~= "exit"@);
        assert(lower("quit"@) =~= "quit"@);
    }
    if eq_ignore_ascii_case(input, "exit") || eq_ignore_ascii_case(input, "quit") {
        return Turn::Quit;
    }
    if input.is_empty() {
        return Turn::Skip;
    }
    let message = if ctx.is_answer_due() {
        Message::approval_answer(input)
    } else {
        Message::user(input)
    };
    ctx.push(message);
    Turn::Run
}

} // verus!
