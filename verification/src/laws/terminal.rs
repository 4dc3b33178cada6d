//! What the command line and a line of input mean.

use crate::cli::{
    idle_timeout, input_body, is_farewell, no_args, read_args, session_id, startup_of, turn_of,
    ArgsView, StartupView, Turn, DEFAULT_IDLE_SECS,
};
use crate::ident::{is_hex, is_random_uuid};
use crate::message::{answer_due, MessageView, Role};
use crate::text::{decimal, lower, parsed_unsigned, trimmed};
use vstd::prelude::*;

verus! {

/// The argument announces a session.
pub open spec fn is_resume(arg: Seq<char>) -> bool {
    arg == "--resume"@ || arg == "-r"@
}

/// None of the arguments announces a session.
pub open spec fn plain_args(args: Seq<Seq<char>>) -> bool {
    forall|i: int| 0 <= i < args.len() ==> !is_resume(#[trigger] args[i])
}

/// The argument is one of the four other flags.
pub open spec fn is_other_flag(arg: Seq<char>) -> bool {
    arg == "--continue"@ || arg == "-c"@ || arg == "--list"@ || arg == "-l"@
}

proof fn lemma_flags_differ()
    ensures
        "--resume"@ != "--continue"@,
        "--resume"@ != "-c"@,
        "--resume"@ != "--list"@,
        "--resume"@ != "-l"@,
        "-r"@ != "--continue"@,
        "-r"@ != "-c"@,
        "-r"@ != "--list"@,
        "-r"@ != "-l"@,
        "--continue"@ != "--list"@,
        "--continue"@ != "-l"@,
        "-c"@ != "--list"@,
        "-c"@ != "-l"@,
{
    reveal_strlit("--resume");
    reveal_strlit("-r");
    reveal_strlit("--continue");
    reveal_strlit("-c");
    reveal_strlit("--list");
    reveal_strlit("-l");
    assert("--resume"@.len() == 8);
    assert("--continue"@.len() == 10);
    assert("--list"@.len() == 6);
    assert("-r"@[1] == 'r');
    assert("-c"@[1] == 'c');
    assert("-l"@[1] == 'l');
}

/// Without an announced session the order of the flags does not matter: each is on where it stands
/// anywhere, in its long or its short form, and what is no flag is ignored, in order.
pub proof fn law_flags_count_wherever_they_stand(so_far: ArgsView, args: Seq<Seq<char>>)
    requires
        plain_args(args),
    ensures
        read_args(so_far, args).resume == so_far.resume,
        read_args(so_far, args).continue_latest <==> so_far.continue_latest || args.contains(
            "--continue"@,
        ) || args.contains("-c"@),
        read_args(so_far, args).list <==> so_far.list || args.contains("--list"@) || args.contains(
            "-l"@,
        ),
        read_args(so_far, args).ignored == so_far.ignored + args.filter(
            |arg: Seq<char>| !is_other_flag(arg),
        ),
    decreases args.len(),
{
    let p = |arg: Seq<char>| !is_other_flag(arg);
    lemma_flags_differ();
    if args.len() == 0 {
        assert(args.filter(p) =~= Seq::empty()) by {
            reveal(Seq::filter);
        }
        assert(so_far.ignored + Seq::<Seq<char>>::empty() =~= so_far.ignored);
    } else {
        let first = args[0];
        let rest = args.skip(1);
        assert(!is_resume(args[0]));
        assert forall|i: int| 0 <= i < rest.len() implies !is_resume(#[trigger] rest[i]) by {
            assert(rest[i] == args[i + 1]);
        }
        let next = if first == "--continue"@ || first == "-c"@ {
            ArgsView { continue_latest: true, ..so_far }
        } else if first == "--list"@ || first == "-l"@ {
            ArgsView { list: true, ..so_far }
        } else {
            ArgsView { ignored: so_far.ignored.push(first), ..so_far }
        };
        law_flags_count_wherever_they_stand(next, rest);
        lemma_first_or_later(args, "--continue"@);
        lemma_first_or_later(args, "-c"@);
        lemma_first_or_later(args, "--list"@);
        lemma_first_or_later(args, "-l"@);
        let one = seq![first];
        assert(args =~= one + rest);
        Seq::filter_distributes_over_add(one, rest, p);
        assert(one =~= Seq::empty().push(first));
        Seq::<Seq<char>>::empty().lemma_filter_push(first, p);
        assert(Seq::<Seq<char>>::empty().filter(p) =~= Seq::empty()) by {
            reveal(Seq::filter);
        }
        assert(read_args(so_far, args) == read_args(next, rest));
        assert(so_far.ignored + args.filter(p) =~= next.ignored + rest.filter(p));
    }
}

proof fn lemma_first_or_later(args: Seq<Seq<char>>, arg: Seq<char>)
    requires
        args.len() > 0,
    ensures
        args.contains(arg) <==> args[0] == arg || args.skip(1).contains(arg),
{
    let rest = args.skip(1);
    if args.contains(arg) && args[0] != arg {
        let i = choose|i: int| 0 <= i < args.len() && args[i] == arg;
        assert(rest[i - 1] == arg);
    }
    if rest.contains(arg) {
        let i = choose|i: int| 0 <= i < rest.len() && rest[i] == arg;
        assert(args[i + 1] == arg);
    }
}

/// The argument behind the announcement is the session, whatever it looks like, and is taken for
/// nothing else; where nothing follows, there is no session. What stands before and after is read
/// as if it stood alone.
pub proof fn law_the_session_follows_its_announcement(
    so_far: ArgsView,
    front: Seq<Seq<char>>,
    flag: Seq<char>,
    id: Seq<char>,
    back: Seq<Seq<char>>,
)
    requires
        plain_args(front),
        flag == "--resume"@ || flag == "-r"@,
    ensures
        read_args(so_far, front + seq![flag, id] + back) == read_args(
            ArgsView { resume: Some(id), ..read_args(so_far, front) },
            back,
        ),
        read_args(so_far, front.push(flag)) == (ArgsView {
            resume: None,
            ..read_args(so_far, front)
        }),
{
    let behind = seq![flag, id] + back;
    lemma_read_on(so_far, front, behind);
    assert(front + seq![flag, id] + back =~= front + behind);
    assert(behind.skip(2) =~= back);
    assert(behind[1] == id);
    lemma_read_on(so_far, front, seq![flag]);
    assert(front + seq![flag] =~= front.push(flag));
}

proof fn lemma_read_on(so_far: ArgsView, front: Seq<Seq<char>>, behind: Seq<Seq<char>>)
    requires
        plain_args(front),
    ensures
        read_args(so_far, front + behind) == read_args(read_args(so_far, front), behind),
    decreases front.len(),
{
    let all = front + behind;
    if front.len() == 0 {
        assert(all =~= behind);
    } else {
        let rest = front.skip(1);
        assert(all[0] == front[0]);
        assert(!is_resume(front[0]));
        assert(all.skip(1) =~= rest + behind);
        assert forall|i: int| 0 <= i < rest.len() implies !is_resume(#[trigger] rest[i]) by {
            assert(rest[i] == front[i + 1]);
        }
        let next = if front[0] == "--continue"@ || front[0] == "-c"@ {
            ArgsView { continue_latest: true, ..so_far }
        } else if front[0] == "--list"@ || front[0] == "-l"@ {
            ArgsView { list: true, ..so_far }
        } else {
            ArgsView { ignored: so_far.ignored.push(front[0]), ..so_far }
        };
        lemma_read_on(next, rest, behind);
    }
}

/// Without arguments nothing is asked for.
pub proof fn law_no_arguments_ask_for_nothing()
    ensures
        read_args(no_args(), Seq::empty()) == no_args(),
        no_args().resume is None,
        !no_args().continue_latest,
        !no_args().list,
        no_args().ignored.len() == 0,
{
}

/// A session is named by the time at which it begins, a hyphen, and eight hexadecimal digits of a
/// random identifier.
pub proof fn law_how_sessions_are_named(secs: nat, random: Seq<char>)
    requires
        is_random_uuid(random),
    ensures
        session_id(secs, random).len() == decimal(secs).len() + 9,
        session_id(secs, random).take(decimal(secs).len() as int) == decimal(secs),
        session_id(secs, random)[decimal(secs).len() as int] == '-',
        forall|i: int|
            0 <= i < 8 ==> #[trigger] session_id(secs, random)[decimal(secs).len() + 1 + i]
                == random[i] && is_hex(random[i]),
{
    let id = session_id(secs, random);
    reveal_strlit("-");
    assert(id.take(decimal(secs).len() as int) =~= decimal(secs));
    assert forall|i: int| 0 <= i < 8 implies #[trigger] id[decimal(secs).len() + 1 + i] == random[i]
        && is_hex(random[i]) by {
        assert(random[i] == random.take(8)[i]);
    }
}

/// A random identifier has 36 characters: lower-case hexadecimal digits, in groups of 8, 4, 4, 4
/// and 12 with hyphens between them.
pub proof fn law_the_form_of_identifiers(s: Seq<char>, i: int)
    requires
        is_random_uuid(s),
        0 <= i < 36,
    ensures
        s.len() == 36,
        s[14] == '4',
        i == 8 || i == 13 || i == 18 || i == 23 ==> s[i] == '-',
        i != 8 && i != 13 && i != 18 && i != 23 ==> '0' <= s[i] <= '9' || 'a' <= s[i] <= 'f',
        s[19] == '8' || s[19] == '9' || s[19] == 'a' || s[19] == 'b',
{
}

/// The sandbox is reclaimed after as many idle seconds as configured, never at 0, and after half an
/// hour where no number is configured.
pub proof fn law_when_the_sandbox_is_reclaimed(text: Seq<char>)
    ensures
        DEFAULT_IDLE_SECS == 1800,
        idle_timeout(None) == Some(1800nat),
        parsed_unsigned(text, u64::MAX as nat) is None ==> idle_timeout(Some(text)) == Some(
            1800nat,
        ),
        parsed_unsigned(text, u64::MAX as nat) == Some(0nat) ==> idle_timeout(Some(text)) is None,
        parsed_unsigned(text, u64::MAX as nat) matches Some(secs) ==> (secs > 0 ==> idle_timeout(
            Some(text),
        ) == Some(secs)),
{
}

/// The human leaves with one of two words, in any case and with white space around it; a blank
/// line means nothing, and everything else is said.
pub proof fn law_what_a_line_means(line: Seq<char>)
    ensures
        turn_of(line) == Turn::Quit <==> lower(trimmed(line)) == "exit"@ || lower(trimmed(line))
            == "quit"@,
        turn_of(line) == Turn::Skip <==> trimmed(line).len() == 0,
        turn_of(line) == Turn::Run <==> trimmed(line).len() > 0 && lower(trimmed(line)) != "exit"@
            && lower(trimmed(line)) != "quit"@,
        is_farewell(line) <==> lower(line) == "exit"@ || lower(line) == "quit"@,
{
    reveal_strlit("exit");
    reveal_strlit("quit");
    assert(lower(trimmed(line)).len() == trimmed(line).len());
}

/// What the human says is kept to the last character but for white space around it. Where an
/// answer is due it is the answer and neither side sees it; otherwise both do.
pub proof fn law_what_a_line_becomes(messages: Seq<MessageView>, line: Seq<char>)
    ensures
        input_body(messages, line).role == Role::User,
        input_body(messages, line).content == trimmed(line),
        answer_due(messages) ==> !input_body(messages, line).user_visible && !input_body(
            messages,
            line,
        ).agent_visible,
        !answer_due(messages) ==> input_body(messages, line).user_visible && input_body(
            messages,
            line,
        ).agent_visible,
        input_body(messages, line).tool_calls is None,
        input_body(messages, line).tool_call_id is None,
        input_body(messages, line).usage is None,
        input_body(messages, line).error_kind is None,
{
}

/// A list comes before everything else, a named session before the last one, and a new session is
/// begun only where nothing is asked for.
pub proof fn law_how_the_program_starts(args: ArgsView, id: Seq<char>)
    ensures
        startup_of(args) == StartupView::List <==> args.list,
        startup_of(args) == StartupView::Resume(id) <==> !args.list && args.resume == Some(id),
        startup_of(args) == StartupView::ContinueLatest <==> !args.list && args.resume is None
            && args.continue_latest,
        startup_of(args) == StartupView::New <==> !args.list && args.resume is None
            && !args.continue_latest,
{
}

} // verus!
