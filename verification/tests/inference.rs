use async_openai::error::{ApiError, ApiErrorResponse, OpenAIError, StreamError};
use corvus::message::{Context, Message, Role, TokenUsage, ToolCall};
use corvus::operations::inference::{
    on_error, on_reply, plan_request, record_fault, InferenceError, InferenceOperation, Reply,
    ReplyCall, ReplyMessage, RequestMessage,
};
use corvus::pipeline::{Effect, OperationResult, StepResult};
use corvus::provider_error::{classify, classify_fault, ErrorKind, UpstreamFault};
use corvus::tool::ToolSpec;
use serde_json::Value;

fn call(id: &str) -> ToolCall {
    ToolCall {
        id: id.to_string(),
        name: "bash".to_string(),
        arguments: "{}".to_string(),
    }
}

fn json(text: &str) -> Value {
    serde_json::from_str(text).expect("valid JSON")
}

fn step(result: OperationResult) -> StepResult {
    match result {
        OperationResult::Applied(step) => step,
        OperationResult::NotApplicable => panic!("must apply"),
    }
}

fn appended(step: &StepResult) -> &Message {
    assert_eq!(step.effects.len(), 1);
    match &step.effects[0] {
        Effect::AppendMessage(message) => message,
        Effect::ReplaceConversation(_) => panic!("must append"),
    }
}

fn api_error(status: u16, body: &str) -> OpenAIError {
    let api_error: ApiError = serde_json::from_str(body).expect("an error object");
    OpenAIError::ApiError(ApiErrorResponse {
        status_code: status.try_into().expect("a status"),
        api_error,
    })
}

#[test]
fn a_request_holds_the_prompt_the_models_view_and_the_tools() {
    let tools = vec![ToolSpec {
        name: "bash".to_string(),
        description: "runs a command".to_string(),
        parameters: json(r#"{"type":"object"}"#),
    }];
    let op = InferenceOperation::new("some-model", Some("be brief".to_string()), &tools)
        .expect("the tools can be offered");
    assert_eq!(op.name(), "inference");

    let mut ctx = Context::new();
    ctx.push(Message::user("list the files"));
    ctx.push(Message::user_only_notification("hidden"));
    ctx.push(Message::assistant_tool_call(vec![call("c1")]));
    ctx.push(Message::tool_response("c1", "a.txt"));
    ctx.push(Message::assistant("one file"));
    let mut system = Message::assistant("rule");
    system.role = Role::System;
    ctx.push(system);

    let request = op.request(&ctx).expect("a request");
    let sent = serde_json::to_value(&request).expect("JSON");
    assert_eq!(sent["model"], json(r#""some-model""#));
    assert_eq!(
        sent["messages"],
        json(
            r#"[
            {"role":"system","content":"be brief"},
            {"role":"user","content":"list the files"},
            {"role":"assistant","tool_calls":[
                {"id":"c1","type":"function","function":{"name":"bash","arguments":"{}"}}]},
            {"role":"tool","content":"a.txt","tool_call_id":"c1"},
            {"role":"assistant","content":"one file"},
            {"role":"system","content":"rule"}]"#
        )
    );
    assert_eq!(
        sent["tools"],
        json(
            r#"[{"type":"function","function":{"name":"bash","description":"runs a command",
            "parameters":{"type":"object"}}}]"#
        )
    );
}

#[test]
fn without_a_prompt_the_transcript_comes_first() {
    let op = InferenceOperation::new("m", None, &vec![]).expect("an operation");
    let mut ctx = Context::new();
    ctx.push(Message::user("hi"));
    let sent = serde_json::to_value(op.request(&ctx).expect("a request")).expect("JSON");
    assert_eq!(sent["messages"], json(r#"[{"role":"user","content":"hi"}]"#));
}

#[test]
fn a_result_without_a_name_sends_an_empty_one() {
    let mut ctx = Context::new();
    let mut result = Message::tool_response("x", "out");
    result.tool_call_id = None;
    ctx.push(result);
    let plan = plan_request(&None, &ctx);
    assert_eq!(plan.len(), 1);
    let RequestMessage::Tool {
        tool_call_id,
        content,
    } = &plan[0]
    else {
        panic!("must be a tool message");
    };
    assert_eq!((tool_call_id.as_str(), content.as_str()), ("", "out"));
}

#[test]
fn hidden_messages_change_no_request() {
    let mut a = Context::new();
    a.push(Message::user("hi"));
    let mut b = Context::new();
    b.push(Message::approval_pending());
    b.push(Message::user("hi"));
    b.push(Message::error(ErrorKind::Unknown, "boom"));
    let prompt = Some("p".to_string());
    assert_eq!(
        format!("{:?}", plan_request(&prompt, &a)),
        format!("{:?}", plan_request(&prompt, &b))
    );
}

#[test]
fn words_end_the_turn() {
    let reply = Reply {
        usage: Some(TokenUsage {
            prompt: 7,
            completion: 2,
            total: 9,
        }),
        choices: vec![
            ReplyMessage {
                content: Some("done".to_string()),
                tool_calls: Some(vec![]),
            },
            ReplyMessage {
                content: Some("second candidate".to_string()),
                tool_calls: None,
            },
        ],
    };
    let step = step(on_reply(reply).expect("a result"));
    assert!(step.yield_turn);
    let message = appended(&step);
    assert_eq!(message.role, Role::Assistant);
    assert_eq!(message.content, "done");
    assert!(message.tool_calls.is_none());
    assert_eq!(message.usage.map(|u| u.total), Some(9));
}

#[test]
fn calls_keep_the_turn_and_hide_the_words() {
    let reply = Reply {
        usage: None,
        choices: vec![ReplyMessage {
            content: Some("let me look".to_string()),
            tool_calls: Some(vec![
                ReplyCall::Function(call("a")),
                ReplyCall::Custom,
                ReplyCall::Function(call("b")),
            ]),
        }],
    };
    let step = step(on_reply(reply).expect("a result"));
    assert!(!step.yield_turn);
    let message = appended(&step);
    assert_eq!(message.content, "");
    assert_eq!(message.tool_calls, Some(vec![call("a"), call("b")]));
    assert!(message.usage.is_none());
}

#[test]
fn an_empty_reply_says_nothing_and_no_candidate_is_an_error() {
    let silent = Reply {
        usage: None,
        choices: vec![ReplyMessage {
            content: None,
            tool_calls: None,
        }],
    };
    let step = step(on_reply(silent).expect("a result"));
    assert!(step.yield_turn);
    assert_eq!(appended(&step).content, "");

    let none = Reply {
        usage: None,
        choices: vec![],
    };
    let Err(error) = on_reply(none) else {
        panic!("must fail");
    };
    assert!(matches!(error, InferenceError::NoCandidate));
    assert_eq!(error.message(), "模型没有返回任何候选结果");
    assert_eq!(InferenceError::Request("bad".to_string()).message(), "bad");
}

#[test]
fn only_the_first_overflow_keeps_the_turn() {
    let mut ctx = Context::new();
    ctx.push(Message::user("hi"));
    let first = step(record_fault(&ctx, ErrorKind::ContextLengthExceeded, "too long"));
    assert!(!first.yield_turn);
    let fault = appended(&first).clone();
    assert_eq!(fault.error_kind, Some(ErrorKind::ContextLengthExceeded));
    assert_eq!(fault.content, "too long");

    ctx.push(fault);
    assert!(step(record_fault(&ctx, ErrorKind::ContextLengthExceeded, "too long")).yield_turn);

    let mut compacted = Context::new();
    compacted.push(Message::user("hi"));
    compacted.push(Message::compaction_marker(4));
    assert!(
        step(record_fault(&compacted, ErrorKind::ContextLengthExceeded, "too long")).yield_turn
    );

    let mut fresh = Context::new();
    fresh.push(Message::user("hi"));
    for kind in [
        ErrorKind::AuthOrQuota,
        ErrorKind::RateLimited,
        ErrorKind::Transport,
        ErrorKind::Unknown,
    ] {
        assert!(step(record_fault(&fresh, kind, "x")).yield_turn);
    }
}

#[test]
fn errors_of_the_client_are_classified_and_kept_in_words() {
    let overflow = api_error(
        400,
        r#"{"message":"too big","type":"t","param":null,"code":"context_length_exceeded"}"#,
    );
    assert_eq!(
        classify(&overflow),
        (
            ErrorKind::ContextLengthExceeded,
            "400 Bad Request t: too big (code: context_length_exceeded)".to_string()
        )
    );

    // Without a code the type counts.
    let quota = api_error(
        429,
        r#"{"message":"no more","type":"insufficient_quota","param":null,"code":null}"#,
    );
    assert_eq!(
        classify(&quota),
        (
            ErrorKind::AuthOrQuota,
            "429 Too Many Requests insufficient_quota: no more".to_string()
        )
    );

    // A code hides the type.
    let limited = api_error(
        429,
        r#"{"message":"slow","type":"insufficient_quota","param":null,"code":"rate"}"#,
    );
    assert_eq!(classify(&limited).0, ErrorKind::RateLimited);

    let broken = OpenAIError::StreamError(Box::new(StreamError::EventStream("cut".to_string())));
    assert_eq!(
        classify(&broken),
        (ErrorKind::Transport, "EventStream error: cut".to_string())
    );

    let invalid = OpenAIError::InvalidArgument("bad".to_string());
    assert_eq!(
        classify(&invalid),
        (ErrorKind::Unknown, "invalid args: bad".to_string())
    );
}

#[test]
fn an_error_goes_on_record() {
    let mut ctx = Context::new();
    ctx.push(Message::user("hi"));
    let step = step(on_error(
        &ctx,
        &api_error(
            402,
            r#"{"message":"Insufficient Balance","type":null,"param":null,"code":null}"#,
        ),
    ));
    assert!(step.yield_turn);
    let message = appended(&step);
    assert_eq!(message.error_kind, Some(ErrorKind::AuthOrQuota));
    assert_eq!(message.content, "402 Payment Required Insufficient Balance");
    assert!(!message.agent_visible);
}

#[test]
fn faults_in_plain_values_are_classified() {
    assert_eq!(
        classify_fault(&UpstreamFault::Http("timeout".to_string())),
        (ErrorKind::Transport, "timeout".to_string())
    );
    assert_eq!(
        classify_fault(&UpstreamFault::Stream("cut".to_string())),
        (ErrorKind::Transport, "cut".to_string())
    );
    assert_eq!(
        classify_fault(&UpstreamFault::Other("?".to_string())),
        (ErrorKind::Unknown, "?".to_string())
    );
    assert_eq!(
        classify_fault(&UpstreamFault::Api {
            status: 403,
            code: None,
            error_type: None,
            message: "forbidden".to_string(),
            text: "403 forbidden".to_string(),
        }),
        (ErrorKind::AuthOrQuota, "403 forbidden".to_string())
    );
}
