use corvus::message::{Context, Message};
use corvus::pipeline::{Effect, OperationResult};
use corvus::provider_error::ErrorKind;

struct PingOperation;

impl PingOperation {
    fn name(&self) -> &'static str {
        "ping_op"
    }

    fn evaluate(&self, ctx: &Context) -> OperationResult {
        match ctx.messages.last() {
            Some(last) if last.content == "ping" => {
                OperationResult::yielded_with(vec![Effect::AppendMessage(Message::assistant(
                    "pong",
                ))])
            }
            _ => OperationResult::NotApplicable,
        }
    }
}

#[test]
fn only_non_fault_messages_count_as_progress() {
    assert!(Effect::AppendMessage(Message::assistant("hi")).is_progress());
    assert!(!Effect::AppendMessage(Message::error(ErrorKind::Unknown, "boom")).is_progress());
    assert!(Effect::ReplaceConversation(vec![]).is_progress());
}

#[test]
fn test_operation_evaluation() {
    let op = PingOperation;
    assert_eq!(op.name(), "ping_op");

    let mut ctx = Context::new();
    ctx.push(Message::user("Hello"));
    assert!(matches!(op.evaluate(&ctx), OperationResult::NotApplicable));

    ctx.push(Message::user("ping"));
    match op.evaluate(&ctx) {
        OperationResult::Applied(step_result) => {
            assert!(step_result.yield_turn);
            assert_eq!(step_result.effects.len(), 1);
        }
        _ => panic!("Expected operation to be applied"),
    }
}

#[test]
fn applied_keeps_the_turn_and_yielded_ends_it() {
    let OperationResult::Applied(step) = OperationResult::applied(vec![]) else {
        panic!("must apply");
    };
    assert!(!step.yield_turn && step.effects.is_empty());
    let OperationResult::Applied(step) = OperationResult::yielded_with(vec![]) else {
        panic!("must apply");
    };
    assert!(step.yield_turn && step.effects.is_empty());
}

#[test]
fn a_cloned_effect_holds_the_same_messages() {
    let effect = Effect::ReplaceConversation(vec![Message::user("a"), Message::assistant("b")]);
    let (Effect::ReplaceConversation(left), Effect::ReplaceConversation(right)) =
        (&effect, &effect.clone())
    else {
        panic!("must be replacements");
    };
    assert_eq!(left[1].id, right[1].id);
    assert_eq!(left[1].content, right[1].content);
}
