//! The engine: evaluates the operations of the pipeline in order of priority, applies what the
//! first applicable one asks for, and knows when to stop.
//!
//! Evaluating an operation may take a network or a sandbox. So a run is a state machine: it says
//! which operation to evaluate next, takes the result, changes the transcript and tells the events.

use crate::events::{events_view, AgentEvent, EventView};
use crate::message::{clone_messages, messages_view, Context, Message, MessageView};
use crate::pipeline::{effects_view, Effect, EffectView, OperationResult, StepView};
use vstd::prelude::*;

verus! {

/// How many steps in a row without progress end a run.
pub const MAX_BARREN_STEPS: usize = 2;

/// How many steps a run may take where nothing else is configured.
pub const DEFAULT_MAX_STEPS: usize = 15;

/// The transcript after an effect.
pub open spec fn apply_effect(messages: Seq<MessageView>, effect: EffectView) -> Seq<MessageView> {
    match effect {
        EffectView::AppendMessage(message) => messages.push(message),
        EffectView::ReplaceConversation(replacement) => replacement,
    }
}

/// The transcript after a row of effects.
pub open spec fn apply_effects(messages: Seq<MessageView>, effects: Seq<EffectView>) -> Seq<
    MessageView,
>
    decreases effects.len(),
{
    if effects.len() == 0 {
        messages
    } else {
        apply_effect(apply_effects(messages, effects.drop_last()), effects.last())
    }
}

/// The model sees the message, and it is part of the conversation: it is no mark of a compaction.
pub open spec fn in_conversation(message: MessageView) -> bool {
    message.body.agent_visible && !message.body.is_compaction_marker()
}

/// The number of messages of the conversation that the model sees.
pub open spec fn conversation_len(messages: Seq<MessageView>) -> nat {
    messages.filter(|m: MessageView| in_conversation(m)).len()
}

/// What is told of an effect on a transcript.
pub open spec fn event_of(messages: Seq<MessageView>, effect: EffectView) -> EventView {
    match effect {
        EffectView::AppendMessage(message) => EventView::MessageAppended { message },
        EffectView::ReplaceConversation(replacement) => EventView::HistoryReplaced {
            before: conversation_len(messages),
            after: conversation_len(replacement),
        },
    }
}

/// What is told of a row of effects: one event for each.
pub open spec fn events_of(messages: Seq<MessageView>, effects: Seq<EffectView>) -> Seq<EventView>
    decreases effects.len(),
{
    if effects.len() == 0 {
        Seq::empty()
    } else {
        let earlier = effects.drop_last();
        events_of(messages, earlier).push(
            event_of(apply_effects(messages, earlier), effects.last()),
        )
    }
}

/// One of the effects is progress.
pub open spec fn progressed(effects: Seq<EffectView>) -> bool {
    exists|i: int| 0 <= i < effects.len() && (#[trigger] effects[i]).is_progress()
}

/// Where a run stands.
pub struct RunView {
    /// The run is over.
    pub over: bool,
    /// The number of operations in the pipeline.
    pub operations: nat,
    /// The operation to evaluate next.
    pub next: nat,
    /// How many steps in a row brought no progress.
    pub barren: nat,
    /// How many steps may still be taken.
    pub steps_left: nat,
}

/// A run at its start: all steps are left. Without an operation or a step it is over at once.
pub open spec fn run_start(operations: nat, max_steps: nat) -> RunView {
    RunView {
        over: operations == 0 || max_steps == 0,
        operations,
        next: 0,
        barren: 0,
        steps_left: max_steps,
    }
}

/// What a run tells at its start.
pub open spec fn start_events(operations: nat, max_steps: nat) -> Seq<EventView> {
    if run_start(operations, max_steps).over {
        seq![EventView::RunStarted, EventView::RunFinished]
    } else {
        seq![EventView::RunStarted]
    }
}

/// Where a run stands after the operation that was next has been evaluated.
///
/// Where it does not apply, the next one has its turn; after the last one the run is over. Where
/// it applies, a step is taken. The run is over where too many steps in a row brought no progress,
/// where the turn ends, or where no step is left; otherwise the pipeline is evaluated anew.
pub open spec fn run_next(run: RunView, result: Option<StepView>) -> RunView {
    if run.over {
        run
    } else {
        match result {
            None => RunView {
                next: run.next + 1,
                over: run.next + 1 >= run.operations,
                ..run
            },
            Some(step) => {
                let barren = if progressed(step.effects) {
                    0
                } else {
                    run.barren + 1
                };
                let steps_left = (run.steps_left - 1) as nat;
                RunView {
                    over: barren >= MAX_BARREN_STEPS || step.yield_turn || steps_left == 0,
                    next: 0,
                    barren,
                    steps_left,
                    ..run
                }
            },
        }
    }
}

/// What a run tells when the operation that was next has been evaluated.
pub open spec fn run_events(
    run: RunView,
    messages: Seq<MessageView>,
    operation: Seq<char>,
    result: Option<StepView>,
) -> Seq<EventView> {
    if run.over {
        Seq::empty()
    } else {
        (match result {
            None => Seq::empty(),
            Some(step) => seq![EventView::OperationApplied { operation }] + events_of(
                messages,
                step.effects,
            ),
        }) + if run_next(run, result).over {
            seq![EventView::RunFinished]
        } else {
            Seq::empty()
        }
    }
}

/// The transcript when the operation that was next has been evaluated.
pub open spec fn run_messages(
    run: RunView,
    messages: Seq<MessageView>,
    result: Option<StepView>,
) -> Seq<MessageView> {
    match result {
        Some(step) if !run.over => apply_effects(messages, step.effects),
        _ => messages,
    }
}

/// The engine: the size of the pipeline and the limit on steps.
#[derive(Debug)]
pub struct Engine {
    operations: usize,
    max_steps: usize,
}

/// A run of the engine.
#[derive(Debug)]
pub struct Run {
    over: bool,
    operations: usize,
    next: usize,
    barren: usize,
    steps_left: usize,
}

impl View for Run {
    type V = RunView;

    closed spec fn view(&self) -> RunView {
        RunView {
            over: self.over,
            operations: self.operations as nat,
            next: self.next as nat,
            barren: self.barren as nat,
            steps_left: self.steps_left as nat,
        }
    }
}

impl Engine {
    /// The number of operations in the pipeline.
    pub closed spec fn operations(self) -> usize {
        self.operations
    }

    /// The configured number of steps.
    pub closed spec fn max_steps(self) -> usize {
        self.max_steps
    }

    /// An engine for a pipeline of so many operations.
    pub fn new(operations: usize) -> (r: Self)
        ensures
            r.operations() == operations,
            r.max_steps() == DEFAULT_MAX_STEPS,
    {
        Engine { operations, max_steps: DEFAULT_MAX_STEPS }
    }

    /// The same engine with another limit on steps.
    pub fn with_max_steps(self, max_steps: usize) -> (r: Self)
        ensures
            r.operations() == self.operations(),
            r.max_steps() == max_steps,
    {
        Engine { operations: self.operations, max_steps }
    }

    /// Starts a run: gives the run and the events to tell.
    pub fn run(&self) -> (r: (Run, Vec<AgentEvent>))
        ensures
            r.0@ == run_start(self.operations() as nat, self.max_steps() as nat),
            events_view(r.1@) == start_events(self.operations() as nat, self.max_steps() as nat),
    {
        let over = self.operations == 0 || self.max_steps == 0;
        let mut events: Vec<AgentEvent> = Vec::new();
        events.push(AgentEvent::RunStarted);
        if over {
            events.push(AgentEvent::RunFinished);
        }
        assert(events_view(events@) =~= start_events(
            self.operations as nat,
            self.max_steps as nat,
        ));
        (
            Run {
                over,
                operations: self.operations,
                next: 0,
                barren: 0,
                steps_left: self.max_steps,
            },
            events,
        )
    }
}

fn count_conversation(messages: &Vec<Message>) -> (r: usize)
    ensures
        r == conversation_len(messages_view(messages@)),
{
    let ghost view = messages_view(messages@);
    let ghost p = |m: MessageView| in_conversation(m);
    let mut r: usize = 0;
    let mut i: usize = 0;
    assert(view.take(0) =~= Seq::empty());
    while i < messages.len()
        invariant
            i <= messages@.len(),
            r <= i,
            view == messages_view(messages@),
            p == (|m: MessageView| in_conversation(m)),
            r == view.take(i as int).filter(p).len(),
        decreases messages@.len() - i,
    {
        let message = &messages[i];
        proof {
            assert(view.take(i + 1) =~= view.take(i as int).push(message@));
            view.take(i as int).lemma_filter_push(message@, p);
        }
        if message.agent_visible && !message.is_compaction_marker() {
            r += 1;
        }
        i += 1;
    }
    assert(view.take(messages@.len() as int) =~= view);
    r
}

fn any_progress(effects: &Vec<Effect>) -> (r: bool)
    ensures
        r == progressed(effects_view(effects@)),
{
    let mut i: usize = 0;
    while i < effects.len()
        invariant
            i <= effects@.len(),
            forall|k: int| 0 <= k < i ==> !(#[trigger] effects_view(effects@)[k]).is_progress(),
        decreases effects@.len() - i,
    {
        assert(effects_view(effects@)[i as int] == effects@[i as int]@);
        if effects[i].is_progress() {
            return true;
        }
        i += 1;
    }
    false
}

/// Applies a row of effects to the transcript and tells each.
fn apply_all(ctx: &mut Context, effects: &Vec<Effect>, events: &mut Vec<AgentEvent>)
    ensures
        final(ctx)@ == apply_effects(old(ctx)@, effects_view(effects@)),
        events_view(final(events)@) == events_view(old(events)@) + events_of(
            old(ctx)@,
            effects_view(effects@),
        ),
{
    let ghost start = ctx@;
    let ghost told = events_view(events@);
    let ghost all = effects_view(effects@);
    let mut i: usize = 0;
    assert(all.take(0) =~= Seq::empty());
    assert(told + events_of(start, all.take(0)) =~= told);
    while i < effects.len()
        invariant
            i <= effects@.len(),
            all == effects_view(effects@),
            ctx@ == apply_effects(start, all.take(i as int)),
            events_view(events@) == told + events_of(start, all.take(i as int)),
        decreases effects@.len() - i,
    {
        let ghost before = events_view(events@);
        let ghost here = ctx@;
        proof {
            assert(all.take(i + 1).drop_last() =~= all.take(i as int));
            assert(all.take(i + 1).last() == effects@[i as int]@);
        }
        match &effects[i] {
            Effect::AppendMessage(message) => {
                ctx.push(message.clone());
                let event = AgentEvent::MessageAppended { message: message.clone() };
                let ghost tells = event@;
                events.push(event);
                assert(events_view(events@) =~= before.push(tells));
            },
            Effect::ReplaceConversation(messages) => {
                let before_len: usize = count_conversation(&ctx.messages);
                let after_len: usize = count_conversation(messages);
                ctx.messages = clone_messages(messages);
                let event = AgentEvent::HistoryReplaced { before: before_len, after: after_len };
                let ghost tells = event@;
                events.push(event);
                assert(events_view(events@) =~= before.push(tells));
            },
        }
        i += 1;
        assert(events_view(events@) =~= told + events_of(start, all.take(i as int)));
    }
    assert(all.take(effects@.len() as int) =~= all);
}

impl Run {
    #[verifier::type_invariant]
    spec fn runnable(self) -> bool {
        !self.over ==> {
            &&& self.next < self.operations
            &&& self.barren < MAX_BARREN_STEPS
            &&& self.steps_left > 0
        }
    }

    /// The operation to evaluate next; `None` once the run is over.
    pub fn pending(&self) -> (r: Option<usize>)
        ensures
            match r {
                Some(next) => !self@.over && next == self@.next && next < self@.operations,
                None => self@.over,
            },
    {
        proof {
            use_type_invariant(self);
        }
        if self.over {
            None
        } else {
            Some(self.next)
        }
    }

    /// Takes the result of the operation that was next: changes the transcript, and gives the
    /// events to tell. A run that is over stays as it is.
    pub fn step(&mut self, ctx: &mut Context, operation: &'static str, result: OperationResult) -> (r:
        Vec<AgentEvent>)
        ensures
            final(self)@ == run_next(old(self)@, result@),
            final(ctx)@ == run_messages(old(self)@, old(ctx)@, result@),
            !old(self)@.over && result@ is Some && result@->0.effects.len() > 0 ==> (
            result@->0.effects.last() matches EffectView::ReplaceConversation(replacement)
                ==> final(ctx)@ == replacement),
            events_view(r@) == run_events(old(self)@, old(ctx)@, operation@, result@),
    {
        let mut events: Vec<AgentEvent> = Vec::new();
        assert(events_view(events@) =~= Seq::empty());
        proof {
            use_type_invariant(&*self);
        }
        if self.over {
            return events;
        }
        let mut run = Run {
            over: false,
            operations: self.operations,
            next: self.next,
            barren: self.barren,
            steps_left: self.steps_left,
        };
        match result {
            OperationResult::NotApplicable => {
                if self.next + 1 == self.operations {
                    run.over = true;
                }
                run.next = self.next + 1;
            },
            OperationResult::Applied(step) => {
                events.push(AgentEvent::OperationApplied { operation });
                assert(events_view(events@) =~= seq![
                    EventView::OperationApplied { operation: operation@ },
                ]);
                let progress = any_progress(&step.effects);
                apply_all(ctx, &step.effects, &mut events);
                let barren: usize = if progress {
                    0
                } else {
                    self.barren + 1
                };
                let steps_left: usize = self.steps_left - 1;
                run = Run {
                    over: barren >= MAX_BARREN_STEPS || step.yield_turn || steps_left == 0,
                    operations: self.operations,
                    next: 0,
                    barren,
                    steps_left,
                };
            },
        }
        if run.over {
            let ghost before = events_view(events@);
            events.push(AgentEvent::RunFinished);
            assert(events_view(events@) =~= before.push(EventView::RunFinished));
        }
        *self = run;
        assert(events_view(events@) =~= run_events(old(self)@, old(ctx)@, operation@, result@));
        events
    }
}

} // verus!
