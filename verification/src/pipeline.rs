//! What an operation asks the engine to do.

use crate::message::{clone_messages, messages_view, Message, MessageView};
use vstd::prelude::*;

verus! {

/// A change of the transcript.
#[derive(Debug)]
pub enum Effect {
    AppendMessage(Message),
    ReplaceConversation(Vec<Message>),
}

/// What an [`Effect`] holds.
pub enum EffectView {
    AppendMessage(MessageView),
    ReplaceConversation(Seq<MessageView>),
}

impl View for Effect {
    type V = EffectView;

    open spec fn view(&self) -> EffectView {
        match *self {
            Effect::AppendMessage(message) => EffectView::AppendMessage(message@),
            Effect::ReplaceConversation(messages) => EffectView::ReplaceConversation(
                messages_view(messages@),
            ),
        }
    }
}

impl EffectView {
    /// An effect is progress unless it only records a fault.
    pub open spec fn is_progress(self) -> bool {
        match self {
            EffectView::ReplaceConversation(_) => true,
            EffectView::AppendMessage(message) => message.body.error_kind is None,
        }
    }
}

impl Clone for Effect {
    fn clone(&self) -> (r: Self)
        ensures
            r@ == self@,
    {
        match self {
            Effect::AppendMessage(message) => Effect::AppendMessage(message.clone()),
            Effect::ReplaceConversation(messages) => Effect::ReplaceConversation(
                clone_messages(messages),
            ),
        }
    }
}

impl Effect {
    /// Does this effect count as progress?
    pub fn is_progress(&self) -> (r: bool)
        ensures
            r == self@.is_progress(),
    {
        match self {
            Effect::ReplaceConversation(_) => true,
            Effect::AppendMessage(message) => message.error_kind.is_none(),
        }
    }
}

/// What a row of effects holds.
pub open spec fn effects_view(effects: Seq<Effect>) -> Seq<EffectView> {
    effects.map_values(|e: Effect| e@)
}

/// What an operation that applied brought about.
#[derive(Debug)]
pub struct StepResult {
    pub effects: Vec<Effect>,
    /// The turn ends here and the human has the word.
    pub yield_turn: bool,
}

/// What a [`StepResult`] holds.
pub struct StepView {
    pub effects: Seq<EffectView>,
    pub yield_turn: bool,
}

impl View for StepResult {
    type V = StepView;

    open spec fn view(&self) -> StepView {
        StepView { effects: effects_view(self.effects@), yield_turn: self.yield_turn }
    }
}

/// The decision of an operation on a transcript.
#[derive(Debug)]
pub enum OperationResult {
    NotApplicable,
    Applied(StepResult),
}

/// What an [`OperationResult`] holds: the step, where the operation applied.
impl View for OperationResult {
    type V = Option<StepView>;

    open spec fn view(&self) -> Option<StepView> {
        match *self {
            OperationResult::NotApplicable => None,
            OperationResult::Applied(step) => Some(step@),
        }
    }
}

impl OperationResult {
    /// The operation applied and the turn goes on.
    pub fn applied(effects: Vec<Effect>) -> (r: Self)
        ensures
            r@ == Some(StepView { effects: effects_view(effects@), yield_turn: false }),
    {
        OperationResult::Applied(StepResult { effects, yield_turn: false })
    }

    /// The operation applied and the turn ends.
    pub fn yielded_with(effects: Vec<Effect>) -> (r: Self)
        ensures
            r@ == Some(StepView { effects: effects_view(effects@), yield_turn: true }),
    {
        OperationResult::Applied(StepResult { effects, yield_turn: true })
    }
}

} // verus!
