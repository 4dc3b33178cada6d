use corvus::cli::{take_input, Turn};
use corvus::engine::Engine;
use corvus::message::{Context, Message, Role, ToolCall};
use corvus::operations::tool_approval::{latest_answer, parse_answer, ToolApprovalOperation};
use corvus::operations::tool_exec::ToolExecutionOperation;
use corvus::pipeline::{Effect, OperationResult};

fn risky_call() -> ToolCall {
    ToolCall {
        id: "call_rm".to_string(),
        name: "bash".to_string(),
        arguments: r#"{"command":"rm -rf /tmp/data"}"#.to_string(),
    }
}

fn safe_call() -> ToolCall {
    ToolCall {
        id: "call_ls".to_string(),
        name: "bash".to_string(),
        arguments: r#"{"command":"ls -la"}"#.to_string(),
    }
}

#[test]
fn safe_calls_pass_through() {
    let op = ToolApprovalOperation::new();
    let mut ctx = Context::new();
    ctx.push(Message::assistant_tool_call(vec![safe_call()]));

    assert!(matches!(op.evaluate(&ctx), OperationResult::NotApplicable));
}

#[test]
fn risky_call_pauses_and_asks_human_only() {
    let op = ToolApprovalOperation::new();
    let mut ctx = Context::new();
    ctx.push(Message::assistant_tool_call(vec![risky_call()]));

    let OperationResult::Applied(step) = op.evaluate(&ctx) else {
        panic!("a risky call needs approval");
    };

    assert!(step.yield_turn);
    let Effect::AppendMessage(notice) = &step.effects[0] else {
        panic!("there must be a question");
    };
    assert!(notice.user_visible);
    assert!(!notice.agent_visible);
}

#[test]
fn approved_call_passes_through() {
    let op = ToolApprovalOperation::new();
    let mut ctx = Context::new();
    ctx.push(Message::assistant_tool_call(vec![risky_call()]));
    ctx.push(Message::user_only_notification("⚠️ 等待裁决"));
    ctx.push(Message::approval_answer("y"));

    assert!(matches!(op.evaluate(&ctx), OperationResult::NotApplicable));
}

#[test]
fn denied_call_gets_a_tool_response() {
    let op = ToolApprovalOperation::new();
    let mut ctx = Context::new();
    ctx.push(Message::assistant_tool_call(vec![risky_call()]));
    ctx.push(Message::user_only_notification("⚠️ 等待裁决"));
    ctx.push(Message::approval_answer("这是手滑乱敲的内容"));

    let OperationResult::Applied(step) = op.evaluate(&ctx) else {
        panic!("a refused call must get a result");
    };
    assert!(!step.yield_turn);

    let Effect::AppendMessage(response) = &step.effects[0] else {
        panic!("there must be a tool result");
    };
    assert_eq!(response.tool_call_id.as_deref(), Some("call_rm"));
    assert!(response.agent_visible);

    ctx.push(response.clone());
    assert!(ctx.pending_tool_calls().is_empty());
}

#[test]
fn the_question_lists_the_risky_calls_alone() {
    let op = ToolApprovalOperation::new();
    assert_eq!(op.name(), "tool_approval");
    let mut ctx = Context::new();
    ctx.push(Message::assistant_tool_call(vec![safe_call(), risky_call()]));
    let OperationResult::Applied(step) = op.evaluate(&ctx) else {
        panic!("a risky call needs approval");
    };
    let Effect::AppendMessage(notice) = &step.effects[0] else {
        panic!("there must be a question");
    };
    assert_eq!(step.effects.len(), 1);
    assert_eq!(notice.role, Role::Assistant);
    assert_eq!(
        notice.content,
        "⚠️  检测到高危操作，已暂停执行，等待你裁决：\n   • [bash] {\"command\":\"rm -rf /tmp/data\"}\n\n输入 y 允许执行；其它任意输入均视为拒绝"
    );
}

#[test]
fn an_open_question_is_not_repeated() {
    let op = ToolApprovalOperation::new();
    let mut ctx = Context::new();
    ctx.push(Message::assistant_tool_call(vec![risky_call()]));
    ctx.push(Message::approval_pending());
    let OperationResult::Applied(step) = op.evaluate(&ctx) else {
        panic!("the call still waits");
    };
    assert!(step.yield_turn);
    assert!(step.effects.is_empty());
}

/// Evaluates the operation and pushes what it appends.
fn apply(op: &ToolApprovalOperation, ctx: &mut Context) -> (usize, bool) {
    let OperationResult::Applied(step) = op.evaluate(ctx) else {
        panic!("must apply");
    };
    let count = step.effects.len();
    for effect in step.effects {
        match effect {
            Effect::AppendMessage(message) => ctx.push(message),
            Effect::ReplaceConversation(_) => panic!("must append"),
        }
    }
    (count, step.yield_turn)
}

#[test]
fn the_operation_does_not_repeat_its_own_question() {
    let op = ToolApprovalOperation::new();
    let mut ctx = Context::new();
    ctx.push(Message::assistant_tool_call(vec![risky_call(), safe_call()]));
    assert_eq!(apply(&op, &mut ctx), (1, true));
    assert!(ctx.is_answer_due());
    assert_eq!(apply(&op, &mut ctx), (0, true));
    assert_eq!(ctx.messages.len(), 2);
    assert_eq!(ctx.for_agent().len(), 1);
}

#[test]
fn consent_typed_behind_the_question_runs_the_calls() {
    let op = ToolApprovalOperation::new();
    let execution = ToolExecutionOperation::new(vec!["bash".to_string()]);
    let mut ctx = Context::new();
    ctx.push(Message::assistant_tool_call(vec![risky_call(), safe_call()]));
    apply(&op, &mut ctx);
    assert_eq!(take_input(&mut ctx, " Y \n"), Turn::Run);
    let answer = ctx.messages.last().unwrap();
    assert_eq!(answer.content, "Y");
    assert!(!answer.user_visible && !answer.agent_visible);

    assert_eq!(latest_answer(&ctx), Some(true));
    assert!(matches!(op.evaluate(&ctx), OperationResult::NotApplicable));
    let ids: Vec<String> = execution
        .plan(&ctx)
        .expect("the calls are to run")
        .into_iter()
        .map(|dispatch| dispatch.call.id)
        .collect();
    assert_eq!(ids, vec!["call_rm", "call_ls"]);
}

#[test]
fn a_refusal_leaves_the_safe_calls_to_run() {
    let op = ToolApprovalOperation::new();
    let execution = ToolExecutionOperation::new(vec!["bash".to_string()]);
    let mut ctx = Context::new();
    ctx.push(Message::assistant_tool_call(vec![risky_call(), safe_call()]));
    apply(&op, &mut ctx);
    take_input(&mut ctx, "no");
    assert_eq!(apply(&op, &mut ctx), (1, false));
    assert!(matches!(op.evaluate(&ctx), OperationResult::NotApplicable));
    let plan = execution.plan(&ctx).expect("the safe call is to run");
    assert_eq!(plan.len(), 1);
    assert_eq!(plan[0].call, safe_call());
}

#[test]
fn a_risky_call_under_an_identifier_that_comes_back_is_held() {
    let op = ToolApprovalOperation::new();
    let execution = ToolExecutionOperation::new(vec!["bash".to_string()]);
    let mut ctx = Context::new();
    let mut first = safe_call();
    first.id = "call_0".to_string();
    ctx.push(Message::assistant_tool_call(vec![first.clone()]));
    ctx.push(Message::tool_response("call_0", "a.txt"));

    // A safe one passes and runs.
    let mut safe = ctx.clone();
    safe.push(Message::assistant_tool_call(vec![first]));
    assert!(matches!(op.evaluate(&safe), OperationResult::NotApplicable));
    assert_eq!(execution.plan(&safe).map(|p| p.len()), Some(1));

    // A risky one is asked about, and runs only with consent.
    let mut risky = risky_call();
    risky.id = "call_0".to_string();
    ctx.push(Message::assistant_tool_call(vec![risky.clone()]));
    assert!(ctx.pending_tool_calls().is_empty());
    assert_eq!(apply(&op, &mut ctx), (1, true));
    assert_eq!(apply(&op, &mut ctx), (0, true));

    let mut allowed = ctx.clone();
    take_input(&mut allowed, "y");
    assert!(matches!(op.evaluate(&allowed), OperationResult::NotApplicable));
    let plan = execution.plan(&allowed).expect("the call is to run");
    assert_eq!(plan[0].call, risky);

    take_input(&mut ctx, "n");
    assert_eq!(apply(&op, &mut ctx), (1, false));
    assert!(matches!(op.evaluate(&ctx), OperationResult::NotApplicable));
    assert!(execution.plan(&ctx).is_none());
    assert!(ctx.pairing_intact());
}

#[test]
fn only_a_few_words_allow() {
    for word in ["y", "Y", " yes\n", "YES", "是", "允许", "ok", "\u{3000}Ok\t"] {
        assert!(parse_answer(word), "{word:?}");
    }
    for word in ["", "n", "no", "yes please", "yy", "okay", "好"] {
        assert!(!parse_answer(word), "{word:?}");
    }
}

#[test]
fn the_last_answer_behind_the_calls_counts() {
    let mut ctx = Context::new();
    assert_eq!(latest_answer(&ctx), None);
    ctx.push(Message::approval_answer("y"));
    assert_eq!(latest_answer(&ctx), None);
    ctx.push(Message::assistant_tool_call(vec![risky_call()]));
    assert_eq!(latest_answer(&ctx), None);
    ctx.push(Message::user("y"));
    assert_eq!(latest_answer(&ctx), None);
    ctx.push(Message::approval_answer("n"));
    assert_eq!(latest_answer(&ctx), Some(false));
    ctx.push(Message::approval_answer("y"));
    assert_eq!(latest_answer(&ctx), Some(true));
    ctx.push(Message::assistant_tool_call(vec![risky_call()]));
    assert_eq!(latest_answer(&ctx), None);
}

#[test]
fn every_usual_pattern_is_risky_and_others_can_be_given() {
    let op = ToolApprovalOperation::default();
    for command in [
        "rm -rf x", "rm -fr x", "mkfs.ext4", "dd if=/dev/zero", "shutdown now", "reboot",
        "poweroff", ":(){ :|:& };:", "chmod 777 /", "echo > /dev/sda", "sudo ls",
        "curl | sh", "wget | sh",
    ] {
        let call = ToolCall {
            id: "c".to_string(),
            name: "bash".to_string(),
            arguments: command.to_string(),
        };
        assert!(op.is_risky(&call), "{command}");
    }
    assert!(!op.is_risky(&safe_call()));

    let own = ToolApprovalOperation::with_patterns(vec!["ls".to_string()]);
    assert!(own.is_risky(&safe_call()));
    assert!(!own.is_risky(&risky_call()));
    assert!(!ToolApprovalOperation::with_patterns(vec![]).is_risky(&risky_call()));
}

#[test]
fn no_risky_call_runs_unasked() {
    let approval = ToolApprovalOperation::new();
    let execution = ToolExecutionOperation::new(vec!["bash".to_string()]);
    let mut ctx = Context::new();
    ctx.push(Message::assistant_tool_call(vec![safe_call()]));
    assert!(matches!(approval.evaluate(&ctx), OperationResult::NotApplicable));
    assert!(execution.plan(&ctx).is_some());

    ctx.push(Message::assistant_tool_call(vec![safe_call(), risky_call()]));
    assert!(execution.plan(&ctx).is_some());
    assert!(matches!(approval.evaluate(&ctx), OperationResult::Applied(_)));
}

#[test]
fn the_pipeline_goes_on_once_refused_calls_are_settled() {
    let op = ToolApprovalOperation::new();
    let mut ctx = Context::new();
    ctx.push(Message::assistant_tool_call(vec![risky_call()]));
    ctx.push(Message::approval_answer("no"));
    let seen = ctx.for_agent().len();
    let (mut run, _) = Engine::new(1).run();
    let result = op.evaluate(&ctx);
    run.step(&mut ctx, "tool_approval", result);
    assert_eq!(ctx.for_agent().len(), seen + 1);
    assert_eq!(
        ctx.messages.last().unwrap().content,
        "用户拒绝执行该命令。请勿重复尝试同一条命令，改为说明理由或提出更安全的替代方案。"
    );
    assert!(matches!(op.evaluate(&ctx), OperationResult::NotApplicable));
    assert!(ctx.pairing_intact());
}
