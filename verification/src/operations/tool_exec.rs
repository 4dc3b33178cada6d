//! Tool execution: which tools to run for the calls that are up, and what becomes of their outputs.

use crate::ident::is_random_uuid;
use crate::message::{
    answered, calls_of, calls_view, tool_response_body, Context, Message, MessageView, Role,
    ToolCall, ToolCallView,
};
use crate::pairing::only_results_between;
use crate::pipeline::{effects_view, Effect, EffectView, OperationResult};
use crate::search::{last_in, lemma_last_in};
use crate::text::{same_text, texts};
use vstd::prelude::*;
use vstd::string::*;

verus! {

/// Where the calls stand that are up: in the last message in which the assistant declares any,
/// where the model saw nothing but tool results since. What it does not see, such as a question to
/// the human and the answer, may stand behind them.
pub open spec fn request_at(messages: Seq<MessageView>) -> Option<int> {
    match last_in(0, messages.len() - 1, |i: int| calls_of(messages[i]).len() > 0) {
        Some(at) if only_results_between(messages, at, messages.len() as int) => Some(at),
        _ => None,
    }
}

/// The calls to run: those that are up and have no result behind them yet. A result further up
/// belongs to an earlier call under the same identifier.
pub open spec fn calls_to_run(messages: Seq<MessageView>) -> Option<Seq<ToolCallView>> {
    match request_at(messages) {
        Some(at) => {
            let calls = calls_of(messages[at]).filter(
                |c: ToolCallView| !answered(messages.skip(at + 1), c.id),
            );
            if calls.len() > 0 {
                Some(calls)
            } else {
                None
            }
        },
        None => None,
    }
}

/// The tool in place `i` has this name.
pub open spec fn bears(names: Seq<Seq<char>>, i: int, name: Seq<char>) -> bool {
    names[i] == name
}

/// The tool of a name: of several, the one registered last.
pub open spec fn tool_named(names: Seq<Seq<char>>, name: Seq<char>) -> Option<int> {
    last_in(0, names.len() - 1, |i: int| bears(names, i, name))
}

/// A call and the tool that is to run it.
#[derive(Debug)]
pub struct Dispatch {
    pub call: ToolCall,
    /// The place of the tool in the list of tools; `None` where no tool has that name.
    pub tool: Option<usize>,
}

/// The dispatches assign each call to the tool of its name, in order.
pub open spec fn dispatched(
    dispatches: Seq<Dispatch>,
    calls: Seq<ToolCallView>,
    names: Seq<Seq<char>>,
) -> bool {
    &&& dispatches.len() == calls.len()
    &&& forall|i: int|
        0 <= i < calls.len() ==> {
            &&& (#[trigger] dispatches[i]).call@ == calls[i]
            &&& match dispatches[i].tool {
                Some(tool) => tool_named(names, calls[i].name) == Some(tool as int),
                None => tool_named(names, calls[i].name) is None,
            }
        }
}

/// A call that was run.
#[derive(Debug)]
pub struct Executed {
    pub call: ToolCall,
    /// The output of the tool or its error; `None` where there is no such tool.
    pub outcome: Option<Result<String, String>>,
}

/// What the model is told of a call that was run.
pub open spec fn output_text(executed: Executed) -> Seq<char> {
    match executed.outcome {
        Some(Ok(output)) => output@,
        Some(Err(error)) => "工具执行出错: "@ + error@,
        None => "错误：未找到名为 '"@ + executed.call@.name + "' 的工具"@,
    }
}

/// The effects answer each call with what became of it, in order.
pub open spec fn answers_all(effects: Seq<EffectView>, executed: Seq<Executed>) -> bool {
    &&& effects.len() == executed.len()
    &&& forall|i: int|
        0 <= i < executed.len() ==> (#[trigger] effects[i] matches EffectView::AppendMessage(
            message,
        ) && message.body == tool_response_body(executed[i].call@.id, output_text(executed[i]))
            && is_random_uuid(message.id))
}

/// Where the calls stand that are up.
fn find_request(ctx: &Context) -> (r: Option<usize>)
    ensures
        match r {
            Some(at) => {
                &&& request_at(ctx@) == Some(at as int)
                &&& at < ctx@.len()
                &&& calls_of(ctx@[at as int]).len() > 0
            },
            None => request_at(ctx@) is None,
        },
{
    let ghost p = |i: int| calls_of(ctx@[i]).len() > 0;
    let n: usize = ctx.messages.len();
    let mut i: usize = n;
    while i > 0
        invariant
            i <= n == ctx.messages@.len(),
            p == (|i: int| calls_of(ctx@[i]).len() > 0),
            last_in(0, n - 1, p) == last_in(0, i - 1, p),
            only_results_between(ctx@, i - 1, n as int),
        decreases i,
    {
        i -= 1;
        let message = &ctx.messages[i];
        assert(ctx@[i as int] == message@);
        if message.role == Role::Assistant {
            if let Some(calls) = &message.tool_calls {
                if calls.len() > 0 {
                    assert(p(i as int));
                    return Some(i);
                }
            }
        }
        assert(!p(i as int));
        if message.agent_visible && message.role != Role::Tool {
            proof {
                lemma_last_in(0, i - 1, p);
                if let Some(at) = last_in(0, n - 1, p) {
                    assert(!only_results_between(ctx@, at, n as int));
                }
            }
            return None;
        }
    }
    None
}

/// The calls to run; none where there is nothing to run.
pub fn find_calls(ctx: &Context) -> (r: Vec<ToolCall>)
    ensures
        match calls_to_run(ctx@) {
            Some(calls) => calls_view(r@) == calls,
            None => r@.len() == 0,
        },
{
    let mut r: Vec<ToolCall> = Vec::new();
    let at: usize = match find_request(ctx) {
        Some(at) => at,
        None => {
            return r;
        },
    };
    let calls = match &ctx.messages[at].tool_calls {
        Some(calls) => calls,
        None => {
            return r;
        },
    };
    assert(at < ctx.messages.len());
    let behind: usize = at + 1;
    let ghost all = calls_view(calls@);
    let ghost p = |c: ToolCallView| !answered(ctx@.skip(at + 1), c.id);
    assert(ctx@[at as int] == ctx.messages@[at as int]@);
    assert(calls_of(ctx@[at as int]) == all);
    let mut i: usize = 0;
    assert(all.take(0) =~= Seq::empty());
    assert(calls_view(r@) =~= all.take(0).filter(p));
    while i < calls.len()
        invariant
            behind == at + 1 <= ctx@.len(),
            i <= calls@.len(),
            all == calls_view(calls@),
            p == (|c: ToolCallView| !answered(ctx@.skip(at + 1), c.id)),
            calls_view(r@) == all.take(i as int).filter(p),
        decreases calls@.len() - i,
    {
        let call = &calls[i];
        let ghost before = r@;
        proof {
            assert(all.take(i + 1) =~= all.take(i as int).push(call@));
            all.take(i as int).lemma_filter_push(call@, p);
        }
        if !ctx.is_answered_from(behind, call.id.as_str()) {
            r.push(call.clone());
            assert(calls_view(r@) =~= calls_view(before).push(call@));
        }
        i += 1;
    }
    assert(all.take(calls@.len() as int) =~= all);
    r
}

/// Runs the tools that the assistant called for.
#[derive(Debug)]
pub struct ToolExecutionOperation {
    names: Vec<String>,
}

impl ToolExecutionOperation {
    /// The names of the tools, in the order in which they were given.
    pub closed spec fn names(self) -> Seq<Seq<char>> {
        texts(self.names@)
    }

    /// Takes the names of the tools.
    pub fn new(tool_list: Vec<String>) -> (r: Self)
        ensures
            r.names() == texts(tool_list@),
    {
        ToolExecutionOperation { names: tool_list }
    }

    /// The name of the operation.
    pub fn name(&self) -> (r: &'static str)
        ensures
            r@ == "tool_execution"@,
    {
        "tool_execution"
    }

    /// The place of the tool of this name.
    pub fn find(&self, name: &str) -> (r: Option<usize>)
        ensures
            match r {
                Some(i) => tool_named(self.names(), name@) == Some(i as int),
                None => tool_named(self.names(), name@) is None,
            },
    {
        let ghost names = texts(self.names@);
        let ghost p = |i: int| bears(names, i, name@);
        let mut i: usize = self.names.len();
        while i > 0
            invariant
                i <= self.names@.len(),
                names == texts(self.names@),
                p == (|i: int| bears(names, i, name@)),
                last_in(0, names.len() - 1, p) == last_in(0, i - 1, p),
            decreases i,
        {
            i -= 1;
            assert(names[i as int] == self.names@[i as int]@);
            if same_text(self.names[i].as_str(), name) {
                return Some(i);
            }
        }
        None
    }

    /// The calls to run, each with its tool; `None` where there is nothing to run.
    pub fn plan(&self, ctx: &Context) -> (r: Option<Vec<Dispatch>>)
        ensures
            match (r, calls_to_run(ctx@)) {
                (Some(dispatches), Some(calls)) => dispatched(dispatches@, calls, self.names()),
                (None, None) => true,
                _ => false,
            },
    {
        let calls = find_calls(ctx);
        let mut r: Vec<Dispatch> = Vec::new();
        let mut i: usize = 0;
        while i < calls.len()
            invariant
                i <= calls@.len(),
                dispatched(r@, calls_view(calls@).take(i as int), self.names()),
            decreases calls@.len() - i,
        {
            let call = &calls[i];
            let ghost before = r@;
            let tool = self.find(call.name.as_str());
            r.push(Dispatch { call: call.clone(), tool });
            i += 1;
            assert(forall|k: int| 0 <= k < before.len() ==> r@[k] == #[trigger] before[k]);
        }
        assert(calls_view(calls@).take(calls@.len() as int) =~= calls_view(calls@));
        if r.len() == 0 {
            None
        } else {
            Some(r)
        }
    }

    /// Answers the calls with what became of them. The turn goes on.
    pub fn conclude(&self, executed: Vec<Executed>) -> (r: OperationResult)
        ensures
            r@ matches Some(step) && !step.yield_turn && answers_all(step.effects, executed@),
    {
        let mut effects: Vec<Effect> = Vec::new();
        let mut i: usize = 0;
        while i < executed.len()
            invariant
                i <= executed@.len(),
                effects@.len() == i,
                answers_all(effects_view(effects@), executed@.take(i as int)),
            decreases executed@.len() - i,
        {
            let ghost before = effects_view(effects@);
            let done = &executed[i];
            let output = match &done.outcome {
                Some(Ok(output)) => output.clone(),
                Some(Err(error)) => {
                    let mut text = String::new();
                    text.append("工具执行出错: ");
                    text.append(error.as_str());
                    assert(text@ =~= "工具执行出错: "@ + error@);
                    text
                },
                None => {
                    let mut text = String::new();
                    text.append("错误：未找到名为 '");
                    text.append(done.call.name.as_str());
                    text.append("' 的工具");
                    assert(text@ =~= "错误：未找到名为 '"@ + done.call@.name + "' 的工具"@);
                    text
                },
            };
            let response = Message::tool_response(done.call.id.as_str(), output.as_str());
            let ghost said = response@;
            effects.push(Effect::AppendMessage(response));
            i += 1;
            proof {
                assert(effects_view(effects@) =~= before.push(EffectView::AppendMessage(said)));
                assert forall|k: int| 0 <= k < i implies (#[trigger] effects_view(
                    effects@,
                )[k] matches EffectView::AppendMessage(message) && message.body
                    == tool_response_body(
                    executed@.take(i as int)[k].call@.id,
                    output_text(executed@.take(i as int)[k]),
) && is_random_uuid(message.id)) by {
                    if k < i - 1 {
                        assert(before[k] == effects_view(effects@)[k]);
                        assert(executed@.take(i - 1)[k] == executed@.take(i as int)[k]);
                    }
                }
            }
        }
        assert(executed@.take(executed@.len() as int) =~= executed@);
        OperationResult::applied(effects)
    }
}

} // verus!
