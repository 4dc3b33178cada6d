use corvus::message::{Context, Message, Role, TokenUsage, ToolCall};
use corvus::operations::compaction::{compact, CompactionOperation, Trigger};
use corvus::pairing::tool_pairing_intact;
use corvus::pipeline::{Effect, OperationResult};
use corvus::provider_error::ErrorKind;

fn call(id: &str) -> ToolCall {
    ToolCall {
        id: id.to_string(),
        name: "bash".to_string(),
        arguments: r#"{"command":"ls"}"#.to_string(),
    }
}

#[test]
fn cuts_only_at_safe_boundaries() {
    let mut ctx = Context::new();
    ctx.push(Message::user("任务"));
    ctx.push(Message::assistant_tool_call(vec![call("c1")]));
    ctx.push(Message::tool_response("c1", "输出"));
    ctx.push(Message::user("继续"));
    ctx.push(Message::assistant_tool_call(vec![call("c2")]));
    ctx.push(Message::tool_response("c2", "输出"));
    ctx.push(Message::assistant("阶段结论"));
    ctx.push(Message::user("再来"));
    ctx.push(Message::assistant("做完了"));

    let (out, dropped) = compact(&ctx, 1, 2);

    assert_eq!(dropped, 6);
    assert_eq!(out.len(), 4);
    assert_eq!(out[0].content, "任务");
    assert_eq!(out[1].content, "再来");
    assert_eq!(out[2].content, "做完了");
    assert!(out[3].is_compaction_marker());

    assert!(tool_pairing_intact(&out));
    let mut compacted = Context::new();
    compacted.messages = out;
    assert!(compacted.pending_tool_calls().is_empty());
    assert!(compacted.for_agent().iter().all(|m| m.role != Role::Tool));
}

#[test]
fn refuses_to_produce_an_orphan_tool_result() {
    let mut ctx = Context::new();
    ctx.push(Message::user("任务"));
    ctx.push(Message::assistant_tool_call(vec![call("c1")]));
    ctx.push(Message::assistant("顺口解释一句"));
    ctx.push(Message::tool_response("c1", "输出"));

    let (out, dropped) = compact(&ctx, 1, 2);

    assert_eq!(dropped, 0);
    assert_eq!(out.len(), ctx.messages.len());
    assert!(!tool_pairing_intact(&ctx.messages));
}

#[test]
fn survives_degenerate_limits() {
    let mut ctx = Context::new();
    ctx.push(Message::user("任务"));
    ctx.push(Message::assistant("回复"));
    ctx.push(Message::user("继续"));
    ctx.push(Message::assistant("收尾"));

    for keep_tail in [0, 1, 99] {
        let (out, _) = compact(&ctx, 1, keep_tail);
        assert!(tool_pairing_intact(&out), "keep_tail={keep_tail}");
    }

    let (out, _) = compact(&ctx, 0, 1);
    assert!(out.is_empty() || tool_pairing_intact(&out));
}

#[test]
fn tail_never_starts_on_a_tool_result() {
    let mut ctx = Context::new();
    ctx.push(Message::user("任务"));
    ctx.push(Message::assistant("中间闲聊"));
    ctx.push(Message::user("第二轮"));
    ctx.push(Message::assistant_tool_call(vec![call("c1")]));
    ctx.push(Message::tool_response("c1", "输出"));

    let (out, dropped) = compact(&ctx, 1, 2);

    assert_eq!(dropped, 1);
    let roles: Vec<_> = out.iter().map(|m| m.role.clone()).collect();
    assert_eq!(
        roles,
        vec![
            Role::User,
            Role::User,
            Role::Assistant,
            Role::Tool,
            Role::User,
        ]
    );

    let mut compacted = Context::new();
    compacted.messages = out;
    assert!(compacted.pending_tool_calls().is_empty());
    assert!(tool_pairing_intact(&compacted.messages));
}

#[test]
fn falls_back_to_a_non_tool_cut_in_a_long_tool_chain() {
    let mut ctx = Context::new();
    ctx.push(Message::user("任务"));
    for (i, id) in ["c1", "c2", "c3", "c4"].iter().enumerate() {
        ctx.push(Message::assistant_tool_call(vec![call(id)]));
        ctx.push(Message::tool_response(id, &format!("输出 {i}")));
    }

    let (out, dropped) = compact(&ctx, 1, 2);

    assert_eq!(dropped, 6);
    assert_eq!(out.last().map(|m| m.is_compaction_marker()), Some(true));
    assert_eq!(out[0].content, "任务");

    let mut compacted = Context::new();
    compacted.messages = out;
    assert!(compacted.pending_tool_calls().is_empty());
    assert!(tool_pairing_intact(&compacted.messages));
}

#[test]
fn keeps_human_only_records_and_fault_diagnostics() {
    let mut ctx = Context::new();
    ctx.push(Message::user("任务"));
    ctx.push(Message::user_only_notification("本地命令已执行"));
    ctx.push(Message::error(ErrorKind::RateLimited, "429 slow down"));
    ctx.push(Message::assistant("中间"));
    ctx.push(Message::user("新的一轮"));
    ctx.push(Message::assistant("收尾"));

    let (out, dropped) = compact(&ctx, 1, 1);

    assert_eq!(dropped, 1);
    assert!(out
        .iter()
        .any(|m| m.content == "本地命令已执行" && !m.agent_visible));
    assert!(out
        .iter()
        .any(|m| m.error_kind == Some(ErrorKind::RateLimited)));

    let mut compacted = Context::new();
    compacted.messages = out;
    assert_eq!(compacted.for_agent().len(), 4);
}

#[test]
fn refuses_while_a_tool_round_trip_is_in_flight() {
    let op = CompactionOperation::with_limits(1_000, 1, 1);

    let mut ctx = Context::new();
    ctx.push(Message::user("任务"));
    ctx.push(Message::assistant_tool_call(vec![call("c1")]));
    ctx.push(Message::error(ErrorKind::ContextLengthExceeded, "too long"));

    assert!(matches!(op.evaluate(&ctx), OperationResult::NotApplicable));
}

#[test]
fn stays_out_of_the_way_below_budget() {
    let op = CompactionOperation::with_limits(60_000, 1, 1);

    let mut ctx = Context::new();
    ctx.push(Message::user("任务"));
    ctx.push(Message::assistant("回复").with_usage(TokenUsage {
        prompt: 1_200,
        completion: 20,
        total: 1_220,
    }));

    assert!(matches!(op.evaluate(&ctx), OperationResult::NotApplicable));
}

#[test]
fn compacts_once_per_stale_usage_reading() {
    let op = CompactionOperation::with_limits(60_000, 1, 2);

    let mut ctx = Context::new();
    ctx.push(Message::user("任务"));
    for i in 0..4 {
        ctx.push(Message::assistant(&format!("第 {i} 步")));
        ctx.push(Message::user(&format!("继续 {i}")));
    }
    ctx.push(Message::assistant("阶段结论").with_usage(TokenUsage {
        prompt: 99_000,
        completion: 30,
        total: 99_030,
    }));

    let OperationResult::Applied(step) = op.evaluate(&ctx) else {
        panic!("over budget: must compact");
    };
    assert!(!step.yield_turn);

    let Effect::ReplaceConversation(messages) = &step.effects[0] else {
        panic!("must replace the transcript");
    };
    assert!(messages.len() < ctx.messages.len());
    ctx.messages = messages.clone();

    assert!(matches!(op.evaluate(&ctx), OperationResult::NotApplicable));

    ctx.push(Message::assistant("新回复").with_usage(TokenUsage {
        prompt: 99_000,
        completion: 10,
        total: 99_010,
    }));
    assert!(matches!(op.evaluate(&ctx), OperationResult::Applied(_)));
}

#[test]
fn recovers_from_a_context_length_failure_exactly_once() {
    let op = CompactionOperation::with_limits(60_000, 1, 2);

    let mut ctx = Context::new();
    ctx.push(Message::user("任务"));
    for i in 0..4 {
        ctx.push(Message::assistant(&format!("第 {i} 步")));
        ctx.push(Message::user(&format!("继续 {i}")));
    }
    ctx.push(Message::error(
        ErrorKind::ContextLengthExceeded,
        "maximum context length is 65536 tokens",
    ));

    let OperationResult::Applied(step) = op.evaluate(&ctx) else {
        panic!("the fault must lead to a compaction");
    };
    let Effect::ReplaceConversation(messages) = &step.effects[0] else {
        panic!("must replace the transcript");
    };
    ctx.messages = messages.clone();

    ctx.push(Message::error(
        ErrorKind::ContextLengthExceeded,
        "maximum context length is 65536 tokens",
    ));
    assert!(matches!(op.evaluate(&ctx), OperationResult::NotApplicable));
}

#[test]
fn a_fault_counts_before_the_budget() {
    let op = CompactionOperation::with_limits(100, 1, 2);
    assert_eq!(op.name(), "compaction");
    let mut ctx = Context::new();
    assert_eq!(op.trigger(&ctx), None);
    ctx.push(Message::assistant("x").with_usage(TokenUsage {
        prompt: 100,
        completion: 0,
        total: 100,
    }));
    assert_eq!(op.trigger(&ctx), Some(Trigger::Proactive { prompt_tokens: 100 }));
    ctx.push(Message::error(ErrorKind::ContextLengthExceeded, "too long"));
    assert_eq!(op.trigger(&ctx), Some(Trigger::Recover));
    ctx.push(Message::error(ErrorKind::Transport, "reset"));
    assert_eq!(op.trigger(&ctx), Some(Trigger::Proactive { prompt_tokens: 100 }));
}

#[test]
fn limits_are_read_from_configured_texts() {
    let mut ctx = Context::new();
    ctx.push(Message::assistant("x").with_usage(TokenUsage {
        prompt: 59_999,
        completion: 0,
        total: 59_999,
    }));
    assert_eq!(CompactionOperation::new(None, None).trigger(&ctx), None);
    assert_eq!(CompactionOperation::new(Some("no number"), None).trigger(&ctx), None);
    assert_eq!(CompactionOperation::new(Some("4294967296"), None).trigger(&ctx), None);
    assert_eq!(
        CompactionOperation::new(Some("59999"), None).trigger(&ctx),
        Some(Trigger::Proactive {
            prompt_tokens: 59_999
        })
    );

    ctx.push(Message::assistant("y").with_usage(TokenUsage {
        prompt: 60_000,
        completion: 0,
        total: 60_000,
    }));
    assert_eq!(
        CompactionOperation::new(None, None).trigger(&ctx),
        Some(Trigger::Proactive {
            prompt_tokens: 60_000
        })
    );
}

#[test]
fn a_proactive_compaction_has_to_be_worth_a_tail() {
    let mut ctx = Context::new();
    ctx.push(Message::user("task"));
    ctx.push(Message::assistant("one"));
    ctx.push(Message::user("two"));
    ctx.push(Message::assistant("three"));
    ctx.push(Message::user("four"));
    ctx.push(Message::assistant("five").with_usage(TokenUsage {
        prompt: 10,
        completion: 0,
        total: 10,
    }));
    // Three messages lie between the head and the tail of two.
    assert_eq!(compact(&ctx, 1, 2).1, 3);
    let worth_it = CompactionOperation::with_limits(10, 1, 2);
    assert!(matches!(worth_it.evaluate(&ctx), OperationResult::Applied(_)));
    // With a tail of three only one goes.
    assert_eq!(compact(&ctx, 1, 3).1, 1);
    let too_little = CompactionOperation::with_limits(10, 1, 3);
    assert!(matches!(too_little.evaluate(&ctx), OperationResult::NotApplicable));
    ctx.push(Message::error(ErrorKind::ContextLengthExceeded, "too long"));
    assert!(matches!(too_little.evaluate(&ctx), OperationResult::Applied(_)));
}

#[test]
fn system_messages_stay() {
    let mut ctx = Context::new();
    ctx.push(Message::user("task"));
    ctx.push(Message::assistant("one"));
    let mut system = Message::assistant("rule");
    system.role = Role::System;
    ctx.push(system);
    ctx.push(Message::assistant("two"));
    ctx.push(Message::user("three"));

    let (out, dropped) = compact(&ctx, 1, 1);
    assert_eq!(dropped, 2);
    let kept: Vec<&str> = out.iter().map(|m| m.content.as_str()).collect();
    assert_eq!(kept[..3], ["task", "rule", "three"]);
}

#[test]
fn nothing_to_drop_leaves_the_transcript_alone() {
    let mut ctx = Context::new();
    let (out, dropped) = compact(&ctx, 1, 1);
    assert_eq!((out.len(), dropped), (0, 0));

    ctx.push(Message::user("task"));
    ctx.push(Message::assistant("done"));
    let (out, dropped) = compact(&ctx, 1, 1);
    assert_eq!(dropped, 0);
    assert_eq!(out[0].id, ctx.messages[0].id);
    assert_eq!(out[1].id, ctx.messages[1].id);

    let (_, dropped) = compact(&ctx, usize::MAX, usize::MAX);
    assert_eq!(dropped, 0);
}

#[test]
fn recent_messages_and_the_first_task_stay() {
    let mut ctx = Context::new();
    ctx.push(Message::user("task"));
    for i in 0..20 {
        ctx.push(Message::assistant(&format!("a{i}")));
        ctx.push(Message::user(&format!("u{i}")));
    }
    let (out, dropped) = compact(&ctx, 1, 5);
    let before: Vec<String> = ctx.messages.iter().map(|m| m.content.clone()).collect();
    let after: Vec<String> = out[..out.len() - 1].iter().map(|m| m.content.clone()).collect();
    assert_eq!(after[0], "task");
    assert_eq!(after[after.len() - 5..], before[before.len() - 5..]);
    assert_eq!(after.len() + dropped, before.len());
}
