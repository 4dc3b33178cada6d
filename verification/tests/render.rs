use corvus::events::AgentEvent;
use corvus::message::{Message, ToolCall};
use corvus::provider_error::ErrorKind;
use corvus::render::render_text;

#[test]
fn renders_assistant_reply() {
    let event = AgentEvent::MessageAppended {
        message: Message::assistant("你好"),
    };
    assert_eq!(render_text(&event).as_deref(), Some("你好"));
}

#[test]
fn skips_everything_that_must_not_be_printed() {
    let cases = [
        AgentEvent::MessageAppended {
            message: Message::user("你好"),
        },
        AgentEvent::MessageAppended {
            message: Message::tool_response("c1", "output"),
        },
        AgentEvent::MessageAppended {
            message: Message::approval_pending(),
        },
        AgentEvent::MessageAppended {
            message: Message::assistant(""),
        },
    ];

    for event in cases {
        assert!(render_text(&event).is_none(), "must not be shown: {event:?}");
    }
}

#[test]
fn renders_provider_error_as_warning_not_dialogue() {
    let event = AgentEvent::MessageAppended {
        message: Message::error(ErrorKind::AuthOrQuota, "402 Insufficient Balance"),
    };

    let text = render_text(&event).expect("a human must see upstream faults");
    assert!(text.contains("402 Insufficient Balance"), "{text}");
    assert!(text.contains("凭据"), "{text}");
    assert!(text.contains("--continue"), "{text}");
}

#[test]
fn renders_history_replacement_with_both_counts() {
    let text = render_text(&AgentEvent::HistoryReplaced {
        before: 42,
        after: 9,
    })
    .expect("a replaced history must be visible");

    assert!(text.contains("42"), "{text}");
    assert!(text.contains('9'), "{text}");
}

#[test]
fn renders_approval_request_with_every_call() {
    let event = AgentEvent::ApprovalRequested {
        calls: vec![ToolCall {
            id: "c1".to_string(),
            name: "bash".to_string(),
            arguments: r#"{"command":"rm -rf /tmp/x"}"#.to_string(),
        }],
    };

    let text = render_text(&event).expect("an approval request must be shown");
    assert!(text.contains("bash"), "{text}");
    assert!(text.contains("rm -rf /tmp/x"), "{text}");
    assert!(text.contains('y'), "{text}");
}

#[test]
fn faults_are_worded_by_their_cause() {
    for (kind, expected) in [
        (
            ErrorKind::AuthOrQuota,
            "⚠️ 上游拒绝了本次请求（凭据无效或余额耗尽，本进程内重试无用）：X\n   修好凭据后 exit，再用 cargo run -- --continue 接着聊，历史不会丢。",
        ),
        (
            ErrorKind::RateLimited,
            "⚠️ 上游限流：X\n   稍等片刻再发一次即可，历史与用量都已保留。",
        ),
        (
            ErrorKind::ContextLengthExceeded,
            "⚠️ 上下文超出模型上限：X\n   已尝试压缩历史自愈；若连续失败，请 exit 后 --continue，或换个上下文更大的模型。",
        ),
        (ErrorKind::Transport, "⚠️ 与上游的连接异常：X"),
        (ErrorKind::Unknown, "⚠️ 上游调用失败（病因未识别）：X"),
    ] {
        let event = AgentEvent::MessageAppended {
            message: Message::error(kind, "X"),
        };
        assert_eq!(render_text(&event).as_deref(), Some(expected));
    }
}

#[test]
fn tools_and_replacements_are_shown_and_the_rest_is_not() {
    assert_eq!(
        render_text(&AgentEvent::ToolStarted {
            tool: "bash".to_string(),
            call_id: "c1".to_string(),
            arguments: "{}".to_string(),
        })
        .as_deref(),
        Some("  ⚡ [bash] {}")
    );
    assert_eq!(
        render_text(&AgentEvent::HistoryReplaced {
            before: 100,
            after: 0
        })
        .as_deref(),
        Some("\n〔历史已压缩：模型可见消息 100 条 → 0 条〕\n")
    );
    let call = |id: &str| ToolCall {
        id: id.to_string(),
        name: id.to_string(),
        arguments: "{}".to_string(),
    };
    assert_eq!(
        render_text(&AgentEvent::ApprovalRequested {
            calls: vec![call("a"), call("b")]
        })
        .as_deref(),
        Some("\n⚠️  检测到高危操作，已暂停执行，等待你裁决：\n   • [a] {}\n   • [b] {}\n\n输入 y 允许执行；其它任意输入均视为拒绝")
    );
    for event in [
        AgentEvent::RunStarted,
        AgentEvent::RunFinished,
        AgentEvent::OperationApplied { operation: "x" },
        AgentEvent::ToolFinished {
            tool: "bash".to_string(),
            call_id: "c1".to_string(),
            output: "out".to_string(),
        },
        AgentEvent::MessageAppended {
            message: Message::error(ErrorKind::Unknown, ""),
        },
    ] {
        assert!(render_text(&event).is_none(), "{event:?}");
    }
}
