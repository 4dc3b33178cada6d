//! What happens during a run, as the front end hears of it.

use crate::message::{calls_view, clone_calls, Message, MessageView, ToolCall, ToolCallView};
use vstd::prelude::*;

verus! {

/// An event of a run. It says what happened; how it is shown is up to the subscriber.
#[derive(Debug)]
pub enum AgentEvent {
    /// A run starts.
    RunStarted,
    /// An operation applied.
    OperationApplied { operation: &'static str },
    /// The transcript has a new message.
    MessageAppended { message: Message },
    /// A tool starts.
    ToolStarted { tool: String, call_id: String, arguments: String },
    /// A tool is done.
    ToolFinished { tool: String, call_id: String, output: String },
    /// A human has to decide on these calls.
    ApprovalRequested { calls: Vec<ToolCall> },
    /// The transcript was replaced as a whole; the counts are those of the conversation that the
    /// model sees.
    HistoryReplaced { before: usize, after: usize },
    /// The run is over and the human has the word.
    RunFinished,
}

/// What an [`AgentEvent`] holds.
pub enum EventView {
    RunStarted,
    OperationApplied { operation: Seq<char> },
    MessageAppended { message: MessageView },
    ToolStarted { tool: Seq<char>, call_id: Seq<char>, arguments: Seq<char> },
    ToolFinished { tool: Seq<char>, call_id: Seq<char>, output: Seq<char> },
    ApprovalRequested { calls: Seq<ToolCallView> },
    HistoryReplaced { before: nat, after: nat },
    RunFinished,
}

impl View for AgentEvent {
    type V = EventView;

    open spec fn view(&self) -> EventView {
        match *self {
            AgentEvent::RunStarted => EventView::RunStarted,
            AgentEvent::OperationApplied { operation } => EventView::OperationApplied {
                operation: operation@,
            },
            AgentEvent::MessageAppended { message } => EventView::MessageAppended {
                message: message@,
            },
            AgentEvent::ToolStarted { tool, call_id, arguments } => EventView::ToolStarted {
                tool: tool@,
                call_id: call_id@,
                arguments: arguments@,
            },
            AgentEvent::ToolFinished { tool, call_id, output } => EventView::ToolFinished {
                tool: tool@,
                call_id: call_id@,
                output: output@,
            },
            AgentEvent::ApprovalRequested { calls } => EventView::ApprovalRequested {
                calls: calls_view(calls@),
            },
            AgentEvent::HistoryReplaced { before, after } => EventView::HistoryReplaced {
                before: before as nat,
                after: after as nat,
            },
            AgentEvent::RunFinished => EventView::RunFinished,
        }
    }
}

impl Clone for AgentEvent {
    fn clone(&self) -> (r: Self)
        ensures
            r@ == self@,
    {
        match self {
            AgentEvent::RunStarted => AgentEvent::RunStarted,
            AgentEvent::OperationApplied { operation } => AgentEvent::OperationApplied { operation },
            AgentEvent::MessageAppended { message } => AgentEvent::MessageAppended {
                message: message.clone(),
            },
            AgentEvent::ToolStarted { tool, call_id, arguments } => AgentEvent::ToolStarted {
                tool: tool.clone(),
                call_id: call_id.clone(),
                arguments: arguments.clone(),
            },
            AgentEvent::ToolFinished { tool, call_id, output } => AgentEvent::ToolFinished {
                tool: tool.clone(),
                call_id: call_id.clone(),
                output: output.clone(),
            },
            AgentEvent::ApprovalRequested { calls } => AgentEvent::ApprovalRequested {
                calls: clone_calls(calls),
            },
            AgentEvent::HistoryReplaced { before, after } => AgentEvent::HistoryReplaced {
                before: *before,
                after: *after,
            },
            AgentEvent::RunFinished => AgentEvent::RunFinished,
        }
    }
}

/// What a row of events holds.
pub open spec fn events_view(events: Seq<AgentEvent>) -> Seq<EventView> {
    events.map_values(|e: AgentEvent| e@)
}

} // verus!
