use corvus::cli::{
    compose_session_id, new_session_id, parse_args, sandbox_idle_timeout_secs, take_input, Args,
    Startup, Turn,
};
use corvus::message::{Context, Message, Role};

fn args(arguments: &[&str]) -> Args {
    parse_args(&arguments.iter().map(|a| a.to_string()).collect())
}

#[test]
fn arguments_are_read_in_order() {
    let parsed = args(&["--continue", "-x", "-r", "--list", "y"]);
    assert!(parsed.continue_latest);
    assert!(!parsed.list);
    assert_eq!(parsed.resume.as_deref(), Some("--list"));
    assert_eq!(parsed.ignored, vec!["-x", "y"]);

    let parsed = args(&["-c", "-l"]);
    assert!(parsed.continue_latest && parsed.list);
    assert!(parsed.ignored.is_empty());

    let parsed = args(&["--resume", "a", "--resume", "b"]);
    assert_eq!(parsed.resume.as_deref(), Some("b"));
    let parsed = args(&["--resume", "a", "--resume"]);
    assert_eq!(parsed.resume, None);

    let none = args(&[]);
    assert!(none.resume.is_none() && !none.continue_latest && !none.list);
}

#[test]
fn a_list_comes_before_a_named_session_before_the_last_one() {
    assert!(matches!(args(&["-r", "a", "-l"]).startup(), Startup::List));
    let Startup::Resume(id) = args(&["-c", "-r", "a"]).startup() else {
        panic!("must resume");
    };
    assert_eq!(id, "a");
    assert!(matches!(args(&["-c"]).startup(), Startup::ContinueLatest));
    assert!(matches!(args(&["x"]).startup(), Startup::New));
}

#[test]
fn session_ids_hold_the_time_and_a_random_group() {
    assert_eq!(
        compose_session_id(1_700_000_000, "0a1b2c3d-0000-4000-8000-000000000000"),
        "1700000000-0a1b2c3d"
    );
    let a = new_session_id(1_700_000_000);
    let b = new_session_id(1_700_000_001);
    assert_eq!(a.len(), 19);
    assert!(a.starts_with("1700000000-"));
    assert!(a[11..].chars().all(|c| c.is_ascii_hexdigit()));
    assert!(a < b);
    assert_ne!(new_session_id(5), new_session_id(5));
}

#[test]
fn the_idle_timeout_can_be_configured_and_switched_off() {
    assert_eq!(sandbox_idle_timeout_secs(None), Some(1800));
    assert_eq!(sandbox_idle_timeout_secs(Some("60")), Some(60));
    assert_eq!(sandbox_idle_timeout_secs(Some("+60")), Some(60));
    assert_eq!(sandbox_idle_timeout_secs(Some("0")), None);
    for text in ["", "+", "-1", "60s", " 60", "1.5", "18446744073709551616"] {
        assert_eq!(sandbox_idle_timeout_secs(Some(text)), Some(1800), "{text:?}");
    }
    assert_eq!(
        sandbox_idle_timeout_secs(Some("18446744073709551615")),
        Some(u64::MAX)
    );
}

#[test]
fn input_is_a_turn_or_an_answer() {
    let mut ctx = Context::new();
    assert_eq!(take_input(&mut ctx, "  do it \n"), Turn::Run);
    let said = &ctx.messages[0];
    assert_eq!(said.content, "do it");
    assert_eq!(said.role, Role::User);
    assert!(said.user_visible && said.agent_visible);

    ctx.push(Message::approval_pending());
    assert_eq!(take_input(&mut ctx, "y\n"), Turn::Run);
    let answer = &ctx.messages[2];
    assert_eq!(answer.content, "y");
    assert!(!answer.user_visible && !answer.agent_visible);
}

#[test]
fn farewells_and_empty_lines_leave_the_transcript_alone() {
    let mut ctx = Context::new();
    for line in ["exit\n", " QUIT ", "Exit"] {
        assert_eq!(take_input(&mut ctx, line), Turn::Quit, "{line:?}");
    }
    for line in ["", "\n", " \t\u{3000}\n"] {
        assert_eq!(take_input(&mut ctx, line), Turn::Skip, "{line:?}");
    }
    assert!(ctx.messages.is_empty());
    assert_eq!(take_input(&mut ctx, "exit now"), Turn::Run);
}
