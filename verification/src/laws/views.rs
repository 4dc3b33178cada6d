//! The models hold what the values hold: nothing is left out and nothing is added.

use crate::cli::Args;
use crate::events::{events_view, AgentEvent, EventView};
use crate::message::{
    calls_view, messages_view, refs_view, Context, Message, ToolCall, ToolCallView,
};
use crate::operations::inference::{
    opt_seq, requests_view, InferenceError, InferenceErrorView, RequestMessage, RequestView,
};
use crate::pipeline::{effects_view, Effect, EffectView, OperationResult, StepResult};
use crate::provider_error::{opt_text, FaultView, UpstreamFault};
use crate::sandbox::{ArgumentError, ArgumentErrorView};
use crate::session::{paths_view, SessionFile, StorePath};
use vstd::prelude::*;

verus! {

/// A call is its identifier, its tool and its arguments; a row of calls is each of them, in order.
pub proof fn law_calls_are_seen_whole(call: ToolCall, calls: Seq<ToolCall>, i: int)
    requires
        0 <= i < calls.len(),
    ensures
        call@.id == call.id@,
        call@.name == call.name@,
        call@.arguments == call.arguments@,
        calls_view(calls).len() == calls.len(),
        calls_view(calls)[i] == (ToolCallView {
            id: calls[i].id@,
            name: calls[i].name@,
            arguments: calls[i].arguments@,
        }),
{
}

/// A message is all of its fields.
pub proof fn law_messages_are_seen_whole(message: Message)
    ensures
        message@.id == message.id@,
        message@.body.role == message.role,
        message@.body.content == message.content@,
        message.tool_calls is None ==> message@.body.tool_calls is None,
        message.tool_calls matches Some(calls) ==> message@.body.tool_calls == Some(
            calls_view(calls@),
        ),
        message.tool_call_id is None ==> message@.body.tool_call_id is None,
        message.tool_call_id matches Some(id) ==> message@.body.tool_call_id == Some(id@),
        message@.body.usage == message.usage,
        message@.body.error_kind == message.error_kind,
        message@.body.user_visible == message.user_visible,
        message@.body.agent_visible == message.agent_visible,
{
}

/// A transcript is its messages, in order, each of them.
pub proof fn law_transcripts_are_seen_whole(
    context: Context,
    borrowed: Seq<&Message>,
    i: int,
    k: int,
)
    requires
        0 <= i < context.messages@.len(),
        0 <= k < borrowed.len(),
    ensures
        context@.len() == context.messages@.len(),
        context@[i] == context.messages@[i]@,
        messages_view(context.messages@) == context@,
        refs_view(borrowed).len() == borrowed.len(),
        refs_view(borrowed)[k] == borrowed[k]@,
{
}

/// An effect is the message that it appends, or every message of the replacement.
pub proof fn law_effects_are_seen_whole(
    message: Message,
    messages: Vec<Message>,
    effects: Seq<Effect>,
    i: int,
)
    requires
        0 <= i < effects.len(),
    ensures
        Effect::AppendMessage(message)@ == EffectView::AppendMessage(message@),
        Effect::ReplaceConversation(messages)@ is ReplaceConversation,
        (Effect::ReplaceConversation(messages)@)->ReplaceConversation_0.len() == messages@.len(),
        forall|k: int|
            0 <= k < messages@.len() ==> #[trigger] (Effect::ReplaceConversation(
                messages,
            )@)->ReplaceConversation_0[k] == messages@[k]@,
        effects_view(effects).len() == effects.len(),
        effects_view(effects)[i] == effects[i]@,
{
}

/// A step is its effects and whether the turn ends; an operation that does not apply takes none.
pub proof fn law_steps_are_seen_whole(step: StepResult)
    ensures
        OperationResult::NotApplicable@ is None,
        OperationResult::Applied(step)@ == Some(step@),
        step@.yield_turn == step.yield_turn,
        step@.effects == effects_view(step.effects@),
{
}

/// An event is all that it tells.
pub proof fn law_events_are_seen_whole(
    event: AgentEvent,
    events: Seq<AgentEvent>,
    i: int,
)
    requires
        0 <= i < events.len(),
    ensures
        event is RunStarted <==> event@ is RunStarted,
        event is RunFinished <==> event@ is RunFinished,
        event matches AgentEvent::OperationApplied { operation } ==> event@ == (
        EventView::OperationApplied { operation: operation@ }),
        event matches AgentEvent::MessageAppended { message } ==> event@ == (
        EventView::MessageAppended { message: message@ }),
        event matches AgentEvent::ToolStarted { tool, call_id, arguments } ==> event@ == (
        EventView::ToolStarted { tool: tool@, call_id: call_id@, arguments: arguments@ }),
        event matches AgentEvent::ToolFinished { tool, call_id, output } ==> event@ == (
        EventView::ToolFinished { tool: tool@, call_id: call_id@, output: output@ }),
        event matches AgentEvent::ApprovalRequested { calls } ==> event@ == (
        EventView::ApprovalRequested { calls: calls_view(calls@) }),
        event matches AgentEvent::HistoryReplaced { before, after } ==> event@ == (
        EventView::HistoryReplaced { before: before as nat, after: after as nat }),
        events_view(events).len() == events.len(),
        events_view(events)[i] == events[i]@,
{
}

/// A fault of the upstream is its variant with all of its texts.
pub proof fn law_faults_are_seen_whole(fault: UpstreamFault, text: Option<String>)
    ensures
        opt_text(None) is None,
        text matches Some(s) ==> opt_text(text) == Some(s@),
        fault matches UpstreamFault::Api { status, code, error_type, message, text }
            ==> fault@ == (FaultView::Api {
            status,
            code: opt_text(code),
            error_type: opt_text(error_type),
            message: message@,
            text: text@,
        }),
        fault matches UpstreamFault::Http(text) ==> fault@ == FaultView::Http(text@),
        fault matches UpstreamFault::Stream(text) ==> fault@ == FaultView::Stream(text@),
        fault matches UpstreamFault::Other(text) ==> fault@ == FaultView::Other(text@),
{
}

/// A message of a request is its variant with all of its words and calls.
pub proof fn law_requests_are_seen_whole(
    message: RequestMessage,
    messages: Seq<RequestMessage>,
    i: int,
)
    requires
        0 <= i < messages.len(),
    ensures
        message matches RequestMessage::System { content } ==> message@ == (RequestView::System {
            content: content@,
        }),
        message matches RequestMessage::User { content } ==> message@ == (RequestView::User {
            content: content@,
        }),
        message matches RequestMessage::Tool { tool_call_id, content } ==> message@ == (
        RequestView::Tool { tool_call_id: tool_call_id@, content: content@ }),
        message matches RequestMessage::Assistant { words, tool_calls } ==> {
            &&& message@ is Assistant
            &&& message@->words == opt_text(words)
            &&& tool_calls is None ==> message@->tool_calls is None
            &&& tool_calls matches Some(calls) ==> message@->tool_calls == Some(calls_view(calls@))
        },
        requests_view(messages).len() == messages.len(),
        requests_view(messages)[i] == messages[i]@,
{
}

/// An optional row is the row, where there is one.
pub proof fn law_optional_rows_are_seen_whole<T>(items: Vec<T>)
    ensures
        opt_seq(Some(items)) == Some(items@),
        opt_seq::<T>(None) is None,
{
}

/// A session file is its version, its session and its transcript; a path is its root and its
/// parts.
pub proof fn law_files_are_seen_whole(
    file: SessionFile,
    path: StorePath,
    paths: Seq<StorePath>,
    i: int,
    k: int,
)
    requires
        0 <= i < paths.len(),
        0 <= k < path.parts@.len(),
    ensures
        file@.schema_version == file.schema_version,
        file@.id == file.id@,
        file@.context == file.context@,
        path@.root == path.root@,
        path@.parts.len() == path.parts@.len(),
        path@.parts[k] == path.parts@[k]@,
        paths_view(paths).len() == paths.len(),
        paths_view(paths)[i] == paths[i]@,
{
}

/// What the arguments ask for is all that was read from them.
pub proof fn law_arguments_are_seen_whole(args: Args)
    ensures
        args.resume is None ==> args@.resume is None,
        args.resume matches Some(id) ==> args@.resume == Some(id@),
        args@.continue_latest == args.continue_latest,
        args@.list == args.list,
        args@.ignored.len() == args.ignored@.len(),
        forall|i: int|
            0 <= i < args.ignored@.len() ==> #[trigger] args@.ignored[i] == args.ignored@[i]@,
{
}

/// An error is its variant with its words.
pub proof fn law_errors_are_seen_whole(words: String)
    ensures
        InferenceError::Request(words)@ == InferenceErrorView::Request(words@),
        InferenceError::NoCandidate@ == InferenceErrorView::NoCandidate,
        ArgumentError::Json(words)@ == ArgumentErrorView::Json(words@),
        ArgumentError::MissingCommand@ == ArgumentErrorView::MissingCommand,
{
}

} // verus!
