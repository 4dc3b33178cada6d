//! Approval: a risky tool call runs only once a human has allowed it.
//!
//! Approval comes before the execution of tools. The question and the answer are kept in the
//! transcript, hidden from the model. A refused call gets a tool result, so that it does not wait
//! for ever and the model learns that this way is closed.

use crate::ident::is_random_uuid;
use crate::message::{
    answer_due, answered, calls_view, pending_calls, plain_body, tool_response_body, Context, Message,
    MessageView, Role, ToolCall, ToolCallView,
};
use crate::operations::tool_exec::{calls_to_run, find_calls};
use crate::pipeline::{effects_view, Effect, EffectView, OperationResult, StepView};
use crate::render::{approval_text, ask_approval};
use crate::search::last_in;
use crate::text::{
    contains, has_substring, lower, same_text, texts, to_ascii_lowercase, trim, trimmed,
};
use vstd::prelude::*;

verus! {

/// The marks of a risky command where none are configured.
pub open spec fn default_patterns() -> Seq<Seq<char>> {
    seq![
        "rm -rf"@,
        "rm -fr"@,
        "mkfs"@,
        "dd if="@,
        "shutdown"@,
        "reboot"@,
        "poweroff"@,
        ":(){"@,
        "chmod 777 /"@,
        "> /dev/sd"@,
        "sudo "@,
        "curl | sh"@,
        "wget | sh"@,
    ]
}

/// The arguments of the call hold one of the patterns.
pub open spec fn risky(patterns: Seq<Seq<char>>, call: ToolCallView) -> bool {
    exists|i: int|
        0 <= i < patterns.len() && has_substring(call.arguments, #[trigger] patterns[i])
}

/// The calls that wait: those without a result, and, of the calls to run, those under an identifier
/// that an earlier call had, whose result they seem to have.
pub open spec fn waiting_calls(messages: Seq<MessageView>) -> Seq<ToolCallView> {
    pending_calls(messages) + match calls_to_run(messages) {
        Some(calls) => calls.filter(|c: ToolCallView| answered(messages, c.id)),
        None => Seq::empty(),
    }
}

/// The calls that wait and are risky, in order.
pub open spec fn risky_calls(patterns: Seq<Seq<char>>, messages: Seq<MessageView>) -> Seq<
    ToolCallView,
> {
    waiting_calls(messages).filter(|c: ToolCallView| risky(patterns, c))
}

/// An answer allows the calls: it is one of a few words, up to white space around it and the case
/// of ASCII letters. Everything else refuses.
pub open spec fn allows(answer: Seq<char>) -> bool {
    let word = lower(trimmed(answer));
    ||| word == "y"@
    ||| word == "yes"@
    ||| word == "是"@
    ||| word == "允许"@
    ||| word == "ok"@
}

/// The message carries calls.
pub open spec fn carries_calls(message: MessageView) -> bool {
    message.body.tool_calls is Some
}

/// The message is the human's answer: from the human, hidden from the model.
pub open spec fn is_answer(message: MessageView) -> bool {
    message.body.role == Role::User && !message.body.agent_visible
}

/// Whether the human allowed the calls of the last message that carries any, where the human has
/// answered since; the last answer counts.
pub open spec fn decision(messages: Seq<MessageView>) -> Option<bool> {
    match last_in(0, messages.len() - 1, |i: int| carries_calls(messages[i])) {
        Some(request) => match last_in(
            request + 1,
            messages.len() - 1,
            |i: int| is_answer(messages[i]),
        ) {
            Some(i) => Some(allows(messages[i].body.content)),
            None => None,
        },
        None => None,
    }
}

/// The tool result of a refused call.
pub open spec fn refusal() -> Seq<char> {
    "用户拒绝执行该命令。请勿重复尝试同一条命令，改为说明理由或提出更安全的替代方案。"@
}

/// The effects answer each of the calls with a refusal, in order.
pub open spec fn refuses(effects: Seq<EffectView>, calls: Seq<ToolCallView>) -> bool {
    &&& effects.len() == calls.len()
    &&& forall|i: int|
        0 <= i < calls.len() ==> (#[trigger] effects[i] matches EffectView::AppendMessage(message)
            && message.body == tool_response_body(calls[i].id, refusal()) && is_random_uuid(
            message.id,
        ))
}

/// The one effect puts the question to the human alone.
pub open spec fn asks(effects: Seq<EffectView>, calls: Seq<ToolCallView>) -> bool {
    &&& effects.len() == 1
    &&& effects[0] matches EffectView::AppendMessage(message)
        && message.body == plain_body(Role::Assistant, approval_text(calls), true, false)
        && is_random_uuid(message.id)
}

/// What this operation does: nothing where no risky call waits or where the human allowed them; it
/// refuses where the human refused; otherwise the turn ends, with the question where no answer is
/// due yet.
pub open spec fn gated(
    result: Option<StepView>,
    patterns: Seq<Seq<char>>,
    messages: Seq<MessageView>,
) -> bool {
    let calls = risky_calls(patterns, messages);
    if calls.len() == 0 {
        result is None
    } else {
        match decision(messages) {
            Some(true) => result is None,
            Some(false) => result matches Some(step) && !step.yield_turn && refuses(
                step.effects,
                calls,
            ),
            None => result matches Some(step) && step.yield_turn && if answer_due(messages) {
                step.effects.len() == 0
            } else {
                asks(step.effects, calls)
            },
        }
    }
}

/// Holds risky calls back until a human has allowed them.
#[derive(Debug)]
pub struct ToolApprovalOperation {
    risky_patterns: Vec<String>,
}

impl Default for ToolApprovalOperation {
    fn default() -> (r: Self)
        ensures
            r.patterns() == default_patterns(),
    {
        ToolApprovalOperation::new()
    }
}

impl ToolApprovalOperation {
    /// The patterns that mark a risky call.
    pub closed spec fn patterns(self) -> Seq<Seq<char>> {
        texts(self.risky_patterns@)
    }

    /// The operation with the usual patterns.
    pub fn new() -> (r: Self)
        ensures
            r.patterns() == default_patterns(),
    {
        let risky_patterns: Vec<String> = vec![
            "rm -rf".to_owned(),
            "rm -fr".to_owned(),
            "mkfs".to_owned(),
            "dd if=".to_owned(),
            "shutdown".to_owned(),
            "reboot".to_owned(),
            "poweroff".to_owned(),
            ":(){".to_owned(),
            "chmod 777 /".to_owned(),
            "> /dev/sd".to_owned(),
            "sudo ".to_owned(),
            "curl | sh".to_owned(),
            "wget | sh".to_owned(),
        ];
        assert(texts(risky_patterns@) =~= default_patterns());
        ToolApprovalOperation { risky_patterns }
    }

    /// The operation with these patterns.
    pub fn with_patterns(patterns: Vec<String>) -> (r: Self)
        ensures
            r.patterns() == texts(patterns@),
    {
        ToolApprovalOperation { risky_patterns: patterns }
    }

    /// The name of the operation.
    pub fn name(&self) -> (r: &'static str)
        ensures
            r@ == "tool_approval"@,
    {
        "tool_approval"
    }

    /// Do the arguments of the call hold one of the patterns?
    pub fn is_risky(&self, call: &ToolCall) -> (r: bool)
        ensures
            r == risky(self.patterns(), call@),
    {
        let mut i: usize = 0;
        while i < self.risky_patterns.len()
            invariant
                i <= self.risky_patterns@.len(),
                forall|k: int|
                    0 <= k < i ==> !has_substring(
                        call@.arguments,
                        #[trigger] texts(self.risky_patterns@)[k],
                    ),
            decreases self.risky_patterns@.len() - i,
        {
            assert(texts(self.risky_patterns@)[i as int] == self.risky_patterns@[i as int]@);
            if contains(call.arguments.as_str(), self.risky_patterns[i].as_str()) {
                return true;
            }
            i += 1;
        }
        false
    }

    /// The risky ones among the calls that wait.
    fn risky_waiting(&self, ctx: &Context) -> (r: Vec<ToolCall>)
        ensures
            calls_view(r@) == risky_calls(self.patterns(), ctx@),
    {
        let calls = find_waiting(ctx);
        let ghost all = calls_view(calls@);
        let ghost p = |c: ToolCallView| risky(self.patterns(), c);
        let mut r: Vec<ToolCall> = Vec::new();
        let mut i: usize = 0;
        assert(all.take(0) =~= Seq::empty());
        assert(calls_view(r@) =~= all.take(0).filter(p));
        while i < calls.len()
            invariant
                i <= calls@.len(),
                all == calls_view(calls@),
                p == (|c: ToolCallView| risky(self.patterns(), c)),
                calls_view(r@) == all.take(i as int).filter(p),
            decreases calls@.len() - i,
        {
            let call = &calls[i];
            let ghost before = r@;
            if self.is_risky(call) {
                r.push(call.clone());
                assert(calls_view(r@) =~= calls_view(before).push(call@));
            }
            proof {
                assert(all.take(i + 1) =~= all.take(i as int).push(call@));
                all.take(i as int).lemma_filter_push(call@, p);
            }
            i += 1;
        }
        assert(all.take(calls@.len() as int) =~= all);
        r
    }

    /// Passes, asks, waits or refuses.
    pub fn evaluate(&self, ctx: &Context) -> (r: OperationResult)
        ensures
            gated(r@, self.patterns(), ctx@),
    {
        let risky = self.risky_waiting(ctx);
        assert(risky@.len() == risky_calls(self.patterns(), ctx@).len());
        if risky.len() == 0 {
            return OperationResult::NotApplicable;
        }
        match latest_answer(ctx) {
            Some(true) => {
                return OperationResult::NotApplicable;
            },
            Some(false) => {
                return OperationResult::applied(denied_effects(&risky));
            },
            None => {},
        }
        if ctx.is_answer_due() {
            return OperationResult::yielded_with(Vec::new());
        }
        let question = Message::user_only_notification(prompt_text(&risky).as_str());
        OperationResult::yielded_with(vec![Effect::AppendMessage(question)])
    }
}

/// The calls that wait.
fn find_waiting(ctx: &Context) -> (r: Vec<ToolCall>)
    ensures
        calls_view(r@) == waiting_calls(ctx@),
{
    let mut r = ctx.pending_tool_calls();
    let up = find_calls(ctx);
    let ghost pending = calls_view(r@);
    let ghost all = calls_view(up@);
    let ghost p = |c: ToolCallView| answered(ctx@, c.id);
    let mut i: usize = 0;
    assert(all.take(0) =~= Seq::empty());
    assert(pending + all.take(0).filter(p) =~= pending);
    while i < up.len()
        invariant
            i <= up@.len(),
            all == calls_view(up@),
            p == (|c: ToolCallView| answered(ctx@, c.id)),
            calls_view(r@) == pending + all.take(i as int).filter(p),
        decreases up@.len() - i,
    {
        let call = &up[i];
        let ghost before = calls_view(r@);
        proof {
            assert(ctx@.skip(0) =~= ctx@);
            assert(all.take(i + 1) =~= all.take(i as int).push(call@));
            all.take(i as int).lemma_filter_push(call@, p);
        }
        if ctx.is_answered_from(0, call.id.as_str()) {
            r.push(call.clone());
            assert(calls_view(r@) =~= before.push(call@));
        }
        i += 1;
        assert(calls_view(r@) =~= pending + all.take(i as int).filter(p));
    }
    assert(all.take(up@.len() as int) =~= all);
    assert(all.len() == 0 ==> all.filter(p) =~= Seq::empty());
    r
}

/// Whether the human allowed the calls asked about last, where the human has answered.
pub fn latest_answer(ctx: &Context) -> (r: Option<bool>)
    ensures
        r == decision(ctx@),
{
    let ghost carries = |i: int| carries_calls(ctx@[i]);
    let ghost answers = |i: int| is_answer(ctx@[i]);
    let n: usize = ctx.messages.len();
    let mut request: usize = n;
    while request > 0 && ctx.messages[request - 1].tool_calls.is_none()
        invariant
            request <= n == ctx.messages@.len(),
            carries == (|i: int| carries_calls(ctx@[i])),
            last_in(0, n - 1, carries) == last_in(0, request - 1, carries),
        decreases request,
    {
        assert(ctx@[request - 1] == ctx.messages@[request - 1]@);
        request -= 1;
    }
    if request == 0 {
        return None;
    }
    assert(ctx@[request - 1] == ctx.messages@[request - 1]@);
    assert(last_in(0, n - 1, carries) == Some(request - 1));
    let mut i: usize = n;
    while i > request
        invariant
            request <= i <= n == ctx.messages@.len(),
            answers == (|i: int| is_answer(ctx@[i])),
            last_in(request as int, n - 1, answers) == last_in(request as int, i - 1, answers),
            last_in(0, n - 1, |i: int| carries_calls(ctx@[i])) == Some(request - 1),
        decreases i,
    {
        i -= 1;
        let message = &ctx.messages[i];
        assert(ctx@[i as int] == message@);
        if message.role == Role::User && !message.agent_visible {
            return Some(parse_answer(message.content.as_str()));
        }
    }
    None
}

/// Does this answer allow the calls?
pub fn parse_answer(content: &str) -> (r: bool)
    ensures
        r == allows(content@),
{
    let trimmed = trim(content);
    let word = to_ascii_lowercase(trimmed.as_str());
    let word = word.as_str();
    same_text(word, "y") || same_text(word, "yes") || same_text(word, "是")
        || same_text(word, "允许") || same_text(word, "ok")
}

/// The question whether risky calls may run.
pub fn prompt_text(risky: &Vec<ToolCall>) -> (r: String)
    ensures
        r@ == approval_text(calls_view(risky@)),
{
    ask_approval(risky)
}

/// A refusal for each of the calls.
pub fn denied_effects(risky: &Vec<ToolCall>) -> (r: Vec<Effect>)
    ensures
        refuses(effects_view(r@), calls_view(risky@)),
{
    let mut r: Vec<Effect> = Vec::new();
    let mut i: usize = 0;
    while i < risky.len()
        invariant
            i <= risky@.len(),
            r@.len() == i,
            forall|k: int|
                0 <= k < i ==> (#[trigger] effects_view(r@)[k] matches EffectView::AppendMessage(
                    message,
                ) && message.body == tool_response_body(calls_view(risky@)[k].id, refusal())
                    && is_random_uuid(message.id)),
        decreases risky@.len() - i,
    {
        let ghost before = effects_view(r@);
        let response = Message::tool_response(
            risky[i].id.as_str(),
            "用户拒绝执行该命令。请勿重复尝试同一条命令，改为说明理由或提出更安全的替代方案。",
        );
        let ghost said = response@;
        r.push(Effect::AppendMessage(response));
        assert(effects_view(r@) =~= before.push(EffectView::AppendMessage(said)));
        i += 1;
    }
    r
}

} // verus!
