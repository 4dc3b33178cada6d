use corvus::message::{Context, Message, Role, ToolCall};
use corvus::operations::tool_exec::{Executed, ToolExecutionOperation};
use corvus::pipeline::{Effect, OperationResult};

fn call(id: &str, name: &str) -> ToolCall {
    ToolCall {
        id: id.to_string(),
        name: name.to_string(),
        arguments: "hello world".to_string(),
    }
}

fn echo(arguments: &str) -> Result<String, String> {
    Ok(format!("Echoed: {}", arguments))
}

#[test]
fn test_tool_exec_operation() {
    let op = ToolExecutionOperation::new(vec!["echo".to_string()]);

    let mut ctx = Context::new();
    ctx.push(Message::assistant_tool_call(vec![call("call_123", "echo")]));

    let executed: Vec<Executed> = op
        .plan(&ctx)
        .expect("there is a call to run")
        .into_iter()
        .map(|dispatch| Executed {
            outcome: dispatch.tool.map(|_| echo(&dispatch.call.arguments)),
            call: dispatch.call,
        })
        .collect();

    match op.conclude(executed) {
        OperationResult::Applied(step_res) => {
            assert!(!step_res.yield_turn);
            assert_eq!(step_res.effects.len(), 1);
            if let Effect::AppendMessage(msg) = &step_res.effects[0] {
                assert_eq!(msg.role, Role::Tool);
                assert_eq!(msg.tool_call_id.as_deref(), Some("call_123"));
                assert_eq!(msg.content, "Echoed: hello world");
            } else {
                panic!("Expected AppendMessage effect");
            }
        }
        _ => panic!("Expected operation to be applied"),
    }
}

#[test]
fn only_calls_that_the_model_waits_for_run() {
    let op = ToolExecutionOperation::new(vec!["echo".to_string()]);
    assert_eq!(op.name(), "tool_execution");
    let mut ctx = Context::new();
    assert!(op.plan(&ctx).is_none());
    ctx.push(Message::assistant("words"));
    assert!(op.plan(&ctx).is_none());
    ctx.push(Message::assistant_tool_call(vec![]));
    assert!(op.plan(&ctx).is_none());
    ctx.push(Message::assistant_tool_call(vec![call("a", "echo")]));
    assert_eq!(op.plan(&ctx).map(|p| p.len()), Some(1));
    ctx.push(Message::user("wait"));
    assert!(op.plan(&ctx).is_none());
    let mut forged = Message::user("x");
    forged.tool_calls = Some(vec![call("b", "echo")]);
    ctx.push(forged);
    assert!(op.plan(&ctx).is_none());
}

fn run_all(op: &ToolExecutionOperation, ctx: &Context) -> Vec<Message> {
    let executed: Vec<Executed> = op
        .plan(ctx)
        .expect("there are calls to run")
        .into_iter()
        .map(|dispatch| Executed {
            outcome: dispatch.tool.map(|_| echo(&dispatch.call.arguments)),
            call: dispatch.call,
        })
        .collect();
    let OperationResult::Applied(step) = op.conclude(executed) else {
        panic!("must apply");
    };
    step.effects
        .into_iter()
        .map(|effect| match effect {
            Effect::AppendMessage(message) => message,
            Effect::ReplaceConversation(_) => panic!("must append"),
        })
        .collect()
}

#[test]
fn an_allowed_call_is_run_behind_question_and_answer() {
    let op = ToolExecutionOperation::new(vec!["echo".to_string()]);
    let mut ctx = Context::new();
    let mut risky = call("call_rm", "echo");
    risky.arguments = "rm -rf /tmp/data".to_string();
    ctx.push(Message::assistant_tool_call(vec![risky]));
    ctx.push(Message::user_only_notification("⚠️ 等待裁决"));
    ctx.push(Message::approval_answer("y"));

    let results = run_all(&op, &ctx);
    assert_eq!(results.len(), 1);
    assert_eq!(results[0].role, Role::Tool);
    assert_eq!(results[0].tool_call_id.as_deref(), Some("call_rm"));
    assert_eq!(results[0].content, "Echoed: rm -rf /tmp/data");

    for result in results {
        ctx.push(result);
    }
    assert!(ctx.pairing_intact());
    assert!(op.plan(&ctx).is_none());
}

#[test]
fn a_call_under_an_identifier_that_comes_back_runs() {
    let op = ToolExecutionOperation::new(vec!["echo".to_string()]);
    let mut ctx = Context::new();
    ctx.push(Message::assistant_tool_call(vec![call("call_0", "echo")]));
    ctx.push(Message::tool_response("call_0", "Echoed: hello world"));
    let mut again = call("call_0", "echo");
    again.arguments = "once more".to_string();
    ctx.push(Message::assistant_tool_call(vec![again, call("", "echo")]));

    let results = run_all(&op, &ctx);
    let said: Vec<_> = results
        .iter()
        .map(|m| (m.tool_call_id.as_deref(), m.content.as_str()))
        .collect();
    assert_eq!(
        said,
        vec![
            (Some("call_0"), "Echoed: once more"),
            (Some(""), "Echoed: hello world")
        ]
    );
    for result in results {
        assert_eq!(result.id.len(), 36);
        ctx.push(result);
    }
    assert!(ctx.pairing_intact());
    assert!(op.plan(&ctx).is_none());
}

#[test]
fn calls_without_a_result_are_left_to_run() {
    let op = ToolExecutionOperation::new(vec!["echo".to_string()]);
    let mut ctx = Context::new();
    ctx.push(Message::assistant_tool_call(vec![
        call("a", "echo"),
        call("b", "echo"),
        call("c", "echo"),
    ]));
    ctx.push(Message::tool_response("b", "refused"));
    let results = run_all(&op, &ctx);
    let ids: Vec<_> = results.iter().map(|m| m.tool_call_id.as_deref()).collect();
    assert_eq!(ids, vec![Some("a"), Some("c")]);
    for result in results {
        ctx.push(result);
    }
    assert!(ctx.pairing_intact());
    assert!(op.plan(&ctx).is_none());

    // Words that the model sees end the matter.
    let mut ctx = Context::new();
    ctx.push(Message::assistant_tool_call(vec![call("a", "echo")]));
    ctx.push(Message::agent_only_instruction("hint"));
    assert!(op.plan(&ctx).is_none());
}

#[test]
fn the_tool_registered_last_under_a_name_runs() {
    let op = ToolExecutionOperation::new(vec![
        "echo".to_string(),
        "add".to_string(),
        "echo".to_string(),
    ]);
    assert_eq!(op.find("echo"), Some(2));
    assert_eq!(op.find("add"), Some(1));
    assert_eq!(op.find("rm"), None);

    let mut ctx = Context::new();
    ctx.push(Message::assistant_tool_call(vec![
        call("a", "add"),
        call("b", "rm"),
        call("c", "echo"),
    ]));
    let plan = op.plan(&ctx).expect("there are calls to run");
    let tools: Vec<Option<usize>> = plan.iter().map(|d| d.tool).collect();
    assert_eq!(tools, vec![Some(1), None, Some(2)]);
    assert_eq!(plan[1].call, call("b", "rm"));
}

#[test]
fn every_call_gets_a_result_whatever_became_of_it() {
    let op = ToolExecutionOperation::new(vec!["echo".to_string()]);
    let mut ctx = Context::new();
    ctx.push(Message::user("go"));
    ctx.push(Message::assistant_tool_call(vec![
        call("a", "echo"),
        call("b", "echo"),
        call("c", "rm"),
    ]));
    let result = op.conclude(vec![
        Executed {
            call: call("a", "echo"),
            outcome: Some(Ok("out".to_string())),
        },
        Executed {
            call: call("b", "echo"),
            outcome: Some(Err("broken".to_string())),
        },
        Executed {
            call: call("c", "rm"),
            outcome: None,
        },
    ]);
    let OperationResult::Applied(step) = result else {
        panic!("must apply");
    };
    for effect in step.effects {
        match effect {
            Effect::AppendMessage(message) => ctx.push(message),
            Effect::ReplaceConversation(_) => panic!("must append"),
        }
    }
    let said: Vec<&str> = ctx.messages[2..].iter().map(|m| m.content.as_str()).collect();
    assert_eq!(
        said,
        vec!["out", "工具执行出错: broken", "错误：未找到名为 'rm' 的工具"]
    );
    assert!(ctx.pending_tool_calls().is_empty());
    assert!(ctx.pairing_intact());
    assert!(op.plan(&ctx).is_none());
}
