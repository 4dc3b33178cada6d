use corvus::message::{Context, Message, Role, TokenUsage, ToolCall};
use corvus::pairing::tool_pairing_intact;
use corvus::provider_error::ErrorKind;

fn call(id: &str) -> ToolCall {
    ToolCall {
        id: id.to_string(),
        name: "bash".to_string(),
        arguments: "{}".to_string(),
    }
}

fn usage(prompt: u32, completion: u32, total: u32) -> TokenUsage {
    TokenUsage {
        prompt,
        completion,
        total,
    }
}

#[test]
fn test_visibility_matrix() {
    let mut ctx = Context::new();

    ctx.push(Message::user("你好"));
    ctx.push(Message::user_only_notification("本地命令 /help 已执行"));
    ctx.push(Message::agent_only_instruction("<hint>注意回答简短</hint>"));

    let agent_view = ctx.for_agent();
    assert_eq!(agent_view.len(), 2);
    assert_eq!(agent_view[0].content, "你好");
    assert_eq!(agent_view[1].content, "<hint>注意回答简短</hint>");

    let user_view = ctx.for_user();
    assert_eq!(user_view.len(), 2);
    assert_eq!(user_view[0].content, "你好");
    assert_eq!(user_view[1].content, "本地命令 /help 已执行");
}

#[test]
fn test_awaiting_human_input() {
    let mut ctx = Context::new();
    assert!(!ctx.awaiting_human_input());

    ctx.push(Message::user("你好"));
    assert!(!ctx.awaiting_human_input());

    ctx.push(Message::user_only_notification("本地命令 /help 已执行"));
    assert!(!ctx.awaiting_human_input());

    ctx.push(Message::approval_pending());
    assert!(ctx.awaiting_human_input());

    ctx.push(Message::approval_answer("y"));
    assert!(!ctx.awaiting_human_input());
}

#[test]
fn test_usage_accounting() {
    let mut ctx = Context::new();
    assert_eq!(ctx.last_prompt_tokens(), None);

    ctx.push(Message::user("读一下 big.py"));
    ctx.push(Message::assistant_tool_call(vec![]).with_usage(usage(1000, 50, 1050)));
    ctx.push(Message::assistant("读完了").with_usage(usage(3000, 20, 3020)));
    ctx.push(Message::user("谢谢"));

    assert_eq!(ctx.total_usage().total, 4070);
    assert_eq!(ctx.last_prompt_tokens(), Some(3000));
}

#[test]
fn a_provider_error_does_not_swallow_the_next_human_message() {
    let mut ctx = Context::new();
    ctx.push(Message::user("把这个脚本跑一遍"));
    ctx.push(Message::error(
        ErrorKind::AuthOrQuota,
        "402 Payment Required Insufficient Balance",
    ));

    assert!(!ctx.awaiting_human_input());
    assert_eq!(ctx.last_error_kind(), Some(ErrorKind::AuthOrQuota));

    ctx.push(Message::user("换成新钥匙了，继续"));
    assert_eq!(ctx.last_error_kind(), None);
    assert!(ctx.messages.last().is_some_and(|m| m.agent_visible));
}

#[test]
fn compaction_marker_opens_a_fresh_evidence_window() {
    let mut ctx = Context::new();
    assert!(ctx.has_new_evidence_since_compaction());

    ctx.push(Message::user("任务"));
    ctx.push(Message::assistant("回复").with_usage(usage(99_000, 20, 99_020)));
    let marker = Message::compaction_marker(7);
    assert!(marker.is_compaction_marker());
    assert!(!marker.is_human_turn());
    ctx.push(marker);

    assert!(!ctx.has_new_evidence_since_compaction());
    assert!(!ctx.awaiting_human_input());

    ctx.push(Message::error(ErrorKind::ContextLengthExceeded, "too long"));
    assert!(!ctx.has_new_evidence_since_compaction());

    ctx.push(Message::assistant("新回复").with_usage(usage(5_000, 10, 5_010)));
    assert!(ctx.has_new_evidence_since_compaction());

    let mut ctx = Context::new();
    ctx.push(Message::user("任务"));
    ctx.push(Message::compaction_marker(3));
    assert!(!ctx.has_new_evidence_since_compaction());
    ctx.push(Message::user("新的一轮"));
    assert!(ctx.has_new_evidence_since_compaction());
}

#[test]
fn constructors_set_role_content_and_visibility() {
    let cases = [
        (Message::user("x"), Role::User, true, true),
        (Message::assistant("x"), Role::Assistant, true, true),
        (Message::user_only_notification("x"), Role::Assistant, true, false),
        (Message::agent_only_instruction("x"), Role::User, false, true),
        (Message::approval_answer("x"), Role::User, false, false),
    ];
    for (message, role, user_visible, agent_visible) in cases {
        assert_eq!(message.role, role);
        assert_eq!(message.content, "x");
        assert_eq!(message.user_visible, user_visible);
        assert_eq!(message.agent_visible, agent_visible);
        assert!(message.tool_calls.is_none());
        assert!(message.tool_call_id.is_none());
        assert!(message.usage.is_none());
        assert!(message.error_kind.is_none());
    }

    let pending = Message::approval_pending();
    assert_eq!(pending.content, "awaiting human approval");
    assert_eq!(pending.role, Role::Assistant);
    assert!(!pending.user_visible && !pending.agent_visible);

    let result = Message::tool_response("c1", "done");
    assert_eq!(result.role, Role::Tool);
    assert_eq!(result.tool_call_id.as_deref(), Some("c1"));
    assert_eq!(result.content, "done");
    assert!(result.user_visible && result.agent_visible);

    let declared = Message::assistant_tool_call(vec![call("c1")]);
    assert_eq!(declared.content, "");
    assert_eq!(declared.tool_calls, Some(vec![call("c1")]));

    let fault = Message::error(ErrorKind::Transport, "reset");
    assert_eq!(fault.error_kind, Some(ErrorKind::Transport));
    assert_eq!(fault.content, "reset");
    assert!(fault.user_visible && !fault.agent_visible);
}

#[test]
fn compaction_marker_says_how_many_messages_went() {
    assert_eq!(
        Message::compaction_marker(120).content,
        "（系统提示：为腾出上下文，更早的 120 条对话已从上下文中移除，你看不到其内容了。\
         如需细节，请重新读取相关文件，或向人类确认。）"
    );
}

#[test]
fn identifiers_are_random_uuids() {
    let a = Message::user("x").id;
    let b = Message::user("x").id;
    assert_ne!(a, b);
    for id in [a, b] {
        assert_eq!(id.len(), 36);
        for (i, c) in id.chars().enumerate() {
            if i == 8 || i == 13 || i == 18 || i == 23 {
                assert_eq!(c, '-');
            } else {
                assert!(c.is_ascii_digit() || ('a'..='f').contains(&c));
            }
        }
        assert_eq!(id.as_bytes()[14], b'4');
        assert!([b'8', b'9', b'a', b'b'].contains(&id.as_bytes()[19]));
    }
}

#[test]
fn pending_calls_are_declared_by_the_assistant_and_unanswered() {
    let mut ctx = Context::new();
    ctx.push(Message::assistant_tool_call(vec![call("a"), call("b")]));
    ctx.push(Message::tool_response("a", "done"));
    ctx.push(Message::assistant_tool_call(vec![call("c")]));
    let mut forged = Message::user("x");
    forged.tool_calls = Some(vec![call("d")]);
    ctx.push(forged);

    let pending: Vec<String> = ctx.pending_tool_calls().into_iter().map(|c| c.id).collect();
    assert_eq!(pending, vec!["b", "c"]);
}

#[test]
fn an_answer_is_due_behind_a_record_or_the_question_itself() {
    let question = "⚠️  检测到高危操作，已暂停执行，等待你裁决：\n   • [bash] {}\n\n输入 y 允许执行；其它任意输入均视为拒绝";
    let state = |message: Message| {
        let mut ctx = Context::new();
        ctx.push(message);
        (ctx.awaiting_human_input(), ctx.is_answer_due())
    };
    assert_eq!(state(Message::approval_pending()), (true, true));
    assert_eq!(state(Message::user_only_notification(question)), (false, true));
    for message in [
        Message::user_only_notification("⚠️ 等待裁决"),
        Message::user_only_notification(&question[..question.len() - 3]),
        Message::user_only_notification(&question[3..]),
        Message::user_only_notification(""),
        Message::assistant(question),
        Message::user(question),
        Message::agent_only_instruction(question),
        Message::approval_answer(question),
        Message::error(ErrorKind::Unknown, question),
    ] {
        assert_eq!(state(message), (false, false));
    }
    assert!(!Context::new().is_answer_due());
}

#[test]
fn results_are_looked_for_from_a_position_on() {
    let mut ctx = Context::new();
    ctx.push(Message::tool_response("a", "1"));
    ctx.push(Message::user("x"));
    assert!(ctx.is_answered_from(0, "a"));
    assert!(!ctx.is_answered_from(1, "a"));
    assert!(!ctx.is_answered_from(0, "b"));
    assert!(!ctx.is_answered_from(2, "a"));
}

#[test]
fn an_identifier_may_come_back_in_a_later_round_trip() {
    let legal = vec![
        Message::assistant_tool_call(vec![call("a")]),
        Message::tool_response("a", "1"),
        Message::assistant_tool_call(vec![call("a")]),
        Message::tool_response("a", "2"),
    ];
    assert!(tool_pairing_intact(&legal));
    assert!(!tool_pairing_intact(&legal[..3]));
    assert!(!tool_pairing_intact(&legal[1..]));
}

#[test]
fn a_later_result_settles_an_earlier_call() {
    let mut ctx = Context::new();
    ctx.push(Message::assistant_tool_call(vec![call("a")]));
    ctx.push(Message::user("in between"));
    ctx.push(Message::tool_response("a", "done"));
    assert!(ctx.pending_tool_calls().is_empty());
    assert!(!ctx.pairing_intact());
}

#[test]
fn totals_that_exceed_their_counter_are_reported() {
    let mut ctx = Context::new();
    ctx.push(Message::assistant("a").with_usage(usage(u32::MAX, 1, 2)));
    assert_eq!(ctx.checked_total_usage(), Some(usage(u32::MAX, 1, 2)));
    ctx.push(Message::assistant("b").with_usage(usage(1, 1, 1)));
    assert_eq!(ctx.checked_total_usage(), None);
}

#[test]
fn usage_accumulates_count_by_count() {
    let mut sum = usage(1, 2, 3);
    sum.accumulate(usage(10, 20, 30));
    assert_eq!(sum, usage(11, 22, 33));
    assert_eq!(TokenUsage::default(), usage(0, 0, 0));
}

#[test]
fn pairing_finds_orphans_gaps_and_interruptions() {
    let legal = vec![
        Message::user("x"),
        Message::assistant_tool_call(vec![call("a"), call("b")]),
        Message::tool_response("b", "2"),
        Message::user_only_notification("hidden from the model"),
        Message::tool_response("a", "1"),
        Message::assistant("done"),
    ];
    assert!(tool_pairing_intact(&legal));
    assert!(tool_pairing_intact(&[]));

    let orphan = vec![Message::user("x"), Message::tool_response("a", "1")];
    assert!(!tool_pairing_intact(&orphan));

    let unanswered = vec![Message::assistant_tool_call(vec![call("a")])];
    assert!(!tool_pairing_intact(&unanswered));

    let interrupted = vec![
        Message::assistant_tool_call(vec![call("a")]),
        Message::user("x"),
        Message::tool_response("a", "1"),
    ];
    assert!(!tool_pairing_intact(&interrupted));

    let twice = vec![
        Message::assistant_tool_call(vec![call("a")]),
        Message::tool_response("a", "1"),
        Message::tool_response("a", "1"),
    ];
    assert!(!tool_pairing_intact(&twice));

    let mut nameless = Message::tool_response("a", "1");
    nameless.tool_call_id = None;
    let unnamed = vec![Message::assistant_tool_call(vec![call("a")]), nameless];
    assert!(!tool_pairing_intact(&unnamed));
}

#[test]
fn words_keep_a_legal_transcript_legal_and_calls_open_a_round_trip() {
    let mut ctx = Context::new();
    ctx.push(Message::user("x"));
    assert!(ctx.pairing_intact());
    ctx.push(Message::error(ErrorKind::Unknown, "boom"));
    assert!(ctx.pairing_intact());
    ctx.push(Message::assistant_tool_call(vec![call("a")]));
    assert!(!ctx.pairing_intact());
    ctx.push(Message::tool_response("a", "1"));
    assert!(ctx.pairing_intact());
}
