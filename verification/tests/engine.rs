use corvus::engine::{Engine, Run, MAX_BARREN_STEPS};
use corvus::events::AgentEvent;
use corvus::message::{Context, Message};
use corvus::pipeline::{Effect, OperationResult};
use corvus::provider_error::ErrorKind;

/// Drives a run to its end with operations that look at the transcript.
fn drive(
    engine: &Engine,
    ctx: &mut Context,
    operations: &[(&'static str, fn(&Context) -> OperationResult)],
) -> Vec<AgentEvent> {
    let (mut run, mut seen): (Run, Vec<AgentEvent>) = engine.run();
    while let Some(i) = run.pending() {
        let (name, evaluate) = operations[i];
        let result = evaluate(ctx);
        seen.extend(run.step(ctx, name, result));
    }
    seen
}

fn reply_once(_ctx: &Context) -> OperationResult {
    OperationResult::yielded_with(vec![Effect::AppendMessage(Message::assistant("hi"))])
}

fn always_fails(_ctx: &Context) -> OperationResult {
    OperationResult::applied(vec![Effect::AppendMessage(Message::error(
        ErrorKind::Unknown,
        "boom",
    ))])
}

fn compact_once(ctx: &Context) -> OperationResult {
    if ctx.messages.len() <= 2 {
        return OperationResult::NotApplicable;
    }
    OperationResult::applied(vec![Effect::ReplaceConversation(vec![
        Message::user("（摘要）"),
        Message::assistant("好"),
    ])])
}

fn never(_ctx: &Context) -> OperationResult {
    OperationResult::NotApplicable
}

fn talks_on(_ctx: &Context) -> OperationResult {
    OperationResult::applied(vec![Effect::AppendMessage(Message::assistant("more"))])
}

#[test]
fn appending_a_message_broadcasts_it() {
    let engine = Engine::new(1);
    let mut ctx = Context::new();

    let seen = drive(&engine, &mut ctx, &[("reply_once", reply_once)]);

    assert_eq!(ctx.messages.len(), 1);
    assert!(
        seen.iter().any(|event| matches!(
            event,
            AgentEvent::MessageAppended { message } if message.content == "hi"
        )),
        "{seen:?}"
    );
}

#[test]
fn breaks_a_barren_loop_instead_of_burning_max_steps() {
    let engine = Engine::new(1);
    let mut ctx = Context::new();

    drive(&engine, &mut ctx, &[("always_fails", always_fails)]);

    assert_eq!(ctx.messages.len(), MAX_BARREN_STEPS);
}

#[test]
fn replacing_the_history_broadcasts_before_and_after() {
    let engine = Engine::new(1);
    let mut ctx = Context::new();
    for i in 0..5 {
        ctx.push(Message::user(&format!("msg {i}")));
    }

    let seen = drive(&engine, &mut ctx, &[("compact_once", compact_once)]);

    assert_eq!(ctx.messages.len(), 2);
    assert!(
        seen.iter().any(|event| matches!(
            event,
            AgentEvent::HistoryReplaced {
                before: 5,
                after: 2
            }
        )),
        "{seen:?}"
    );
}

#[test]
fn a_run_is_told_from_start_to_end() {
    let engine = Engine::new(2);
    let mut ctx = Context::new();
    let seen = drive(&engine, &mut ctx, &[("never", never), ("reply_once", reply_once)]);
    assert_eq!(seen.len(), 4);
    assert!(matches!(seen[0], AgentEvent::RunStarted));
    assert!(matches!(
        seen[1],
        AgentEvent::OperationApplied {
            operation: "reply_once"
        }
    ));
    assert!(matches!(seen[2], AgentEvent::MessageAppended { .. }));
    assert!(matches!(seen[3], AgentEvent::RunFinished));
}

#[test]
fn a_run_takes_as_many_steps_as_configured_at_most() {
    let mut ctx = Context::new();
    drive(&Engine::new(1), &mut ctx, &[("talks_on", talks_on)]);
    assert_eq!(ctx.messages.len(), 15);

    let mut ctx = Context::new();
    drive(
        &Engine::new(1).with_max_steps(1),
        &mut ctx,
        &[("talks_on", talks_on)],
    );
    assert_eq!(ctx.messages.len(), 1);

    let mut ctx = Context::new();
    let seen = drive(
        &Engine::new(1).with_max_steps(0),
        &mut ctx,
        &[("talks_on", talks_on)],
    );
    assert!(ctx.messages.is_empty());
    assert_eq!(seen.len(), 2);
    assert!(matches!(seen[1], AgentEvent::RunFinished));
}

#[test]
fn nothing_applicable_ends_a_run() {
    let mut ctx = Context::new();
    let seen = drive(&Engine::new(2), &mut ctx, &[("a", never), ("b", never)]);
    assert_eq!(seen.len(), 2);
    assert!(matches!(seen[1], AgentEvent::RunFinished));

    let seen = drive(&Engine::new(0), &mut ctx, &[]);
    assert_eq!(seen.len(), 2);
    assert!(ctx.messages.is_empty());
}

#[test]
fn the_first_applicable_operation_has_its_way() {
    let mut ctx = Context::new();
    let seen = drive(
        &Engine::new(3),
        &mut ctx,
        &[("never", never), ("reply_once", reply_once), ("talks_on", talks_on)],
    );
    assert_eq!(ctx.messages.len(), 1);
    assert!(matches!(
        seen[1],
        AgentEvent::OperationApplied {
            operation: "reply_once"
        }
    ));
}

#[test]
fn barren_steps_count_over_operations_that_do_not_apply() {
    let engine = Engine::new(2);
    let (mut run, _) = engine.run();
    let mut ctx = Context::new();
    run.step(&mut ctx, "fails", always_fails(&Context::new()));
    assert_eq!(run.pending(), Some(0));
    run.step(&mut ctx, "never", OperationResult::NotApplicable);
    assert_eq!(run.pending(), Some(1));
    let told = run.step(&mut ctx, "fails", always_fails(&Context::new()));
    assert_eq!(run.pending(), None);
    assert!(matches!(told.last(), Some(AgentEvent::RunFinished)));

    // A run that is over does nothing more.
    assert!(run.step(&mut ctx, "reply_once", reply_once(&Context::new())).is_empty());
    assert_eq!(ctx.messages.len(), 2);
}

#[test]
fn progress_resets_the_count_of_barren_steps() {
    let engine = Engine::new(1);
    let (mut run, _) = engine.run();
    let mut ctx = Context::new();
    run.step(&mut ctx, "fails", always_fails(&Context::new()));
    run.step(&mut ctx, "talks", talks_on(&Context::new()));
    run.step(&mut ctx, "fails", always_fails(&Context::new()));
    assert_eq!(run.pending(), Some(0));
    // No effects at all are no progress either.
    run.step(&mut ctx, "idle", OperationResult::applied(vec![]));
    assert_eq!(run.pending(), None);
}

#[test]
fn the_mark_of_a_compaction_is_not_counted() {
    let engine = Engine::new(1);
    let (mut run, _) = engine.run();
    let mut ctx = Context::new();
    ctx.push(Message::user("a"));
    ctx.push(Message::assistant("b"));
    ctx.push(Message::user_only_notification("c"));
    let told = run.step(
        &mut ctx,
        "compaction",
        OperationResult::applied(vec![Effect::ReplaceConversation(vec![
            Message::user("a"),
            Message::compaction_marker(1),
        ])]),
    );
    assert!(matches!(
        told[1],
        AgentEvent::HistoryReplaced {
            before: 2,
            after: 1
        }
    ));
}

#[test]
fn a_whole_run_is_told_step_by_step() {
    fn greets_twice(ctx: &Context) -> OperationResult {
        let effects = vec![
            Effect::AppendMessage(Message::assistant("a")),
            Effect::AppendMessage(Message::assistant("b")),
        ];
        if ctx.messages.is_empty() {
            OperationResult::applied(effects)
        } else {
            OperationResult::yielded_with(effects)
        }
    }

    let mut ctx = Context::new();
    let seen = drive(&Engine::new(2), &mut ctx, &[("never", never), ("greets", greets_twice)]);
    let told: Vec<String> = seen
        .iter()
        .map(|event| match event {
            AgentEvent::RunStarted => "start".to_string(),
            AgentEvent::OperationApplied { operation } => operation.to_string(),
            AgentEvent::MessageAppended { message } => message.content.clone(),
            AgentEvent::RunFinished => "end".to_string(),
            other => format!("{other:?}"),
        })
        .collect();
    assert_eq!(
        told,
        vec!["start", "greets", "a", "b", "greets", "a", "b", "end"]
    );
    let said: Vec<&str> = ctx.messages.iter().map(|m| m.content.as_str()).collect();
    assert_eq!(said, vec!["a", "b", "a", "b"]);
}
