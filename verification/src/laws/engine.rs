//! How a run goes and how it ends, whatever the operations answer.

use crate::engine::{
    apply_effects, conversation_len, events_of, progressed, run_events, run_messages,
    run_next, run_start, start_events, RunView, DEFAULT_MAX_STEPS,
    MAX_BARREN_STEPS,
};
use crate::events::EventView;
use crate::filter::{lemma_all_stay, lemma_filters_meet};
use crate::laws::compaction::law_only_the_models_view_shrinks;
use crate::message::MessageView;
use crate::operations::compaction::{compaction, droppable, replaces};
use crate::pipeline::{EffectView, StepView};
use vstd::prelude::*;

verus! {

/// Where a run stands after a row of results.
pub open spec fn run_after(run: RunView, results: Seq<Option<StepView>>) -> RunView
    decreases results.len(),
{
    if results.len() == 0 {
        run
    } else {
        run_next(run_after(run, results.drop_last()), results.last())
    }
}

/// How many steps a run takes on a row of results.
pub open spec fn steps_taken(run: RunView, results: Seq<Option<StepView>>) -> nat
    decreases results.len(),
{
    if results.len() == 0 {
        0
    } else {
        let earlier = results.drop_last();
        steps_taken(run, earlier) + if !run_after(run, earlier).over && results.last() is Some {
            1nat
        } else {
            0
        }
    }
}

/// A run that is not over has an operation to evaluate and a step to take.
pub open spec fn runnable(run: RunView) -> bool {
    !run.over ==> {
        &&& run.next < run.operations
        &&& run.barren < MAX_BARREN_STEPS
        &&& run.steps_left > 0
    }
}

/// Every run is runnable from its start to its end.
pub proof fn law_every_run_is_runnable(
    operations: nat,
    max_steps: nat,
    results: Seq<Option<StepView>>,
)
    ensures
        runnable(run_after(run_start(operations, max_steps), results)),
        run_after(run_start(operations, max_steps), results).operations == operations,
    decreases results.len(),
{
    if results.len() > 0 {
        law_every_run_is_runnable(operations, max_steps, results.drop_last());
    }
}

/// A run never takes more steps than configured.
pub proof fn law_steps_are_limited(operations: nat, max_steps: nat, results: Seq<Option<StepView>>)
    ensures
        steps_taken(run_start(operations, max_steps), results) <= max_steps,
        steps_taken(run_start(operations, max_steps), results) + run_after(
            run_start(operations, max_steps),
            results,
        ).steps_left == max_steps,
    decreases results.len(),
{
    if results.len() > 0 {
        law_steps_are_limited(operations, max_steps, results.drop_last());
        law_every_run_is_runnable(operations, max_steps, results.drop_last());
    }
}

/// How many operations can still be evaluated.
spec fn evaluations_left(run: RunView) -> int {
    run.steps_left * run.operations - run.next
}

proof fn lemma_evaluations(run: RunView, result: Option<StepView>)
    requires
        runnable(run),
        !run.over,
        !run_next(run, result).over,
    ensures
        evaluations_left(run_next(run, result)) < evaluations_left(run),
{
    let (steps, operations) = (run.steps_left as int, run.operations as int);
    assert((steps - 1) * operations == steps * operations - operations) by (nonlinear_arith);
}

/// Every run ends, whatever the operations answer: after so many evaluations at the latest.
pub proof fn law_every_run_ends(operations: nat, max_steps: nat, results: Seq<Option<StepView>>)
    requires
        results.len() >= max_steps * operations,
    ensures
        run_after(run_start(operations, max_steps), results).over,
{
    let start = run_start(operations, max_steps);
    if !run_after(start, results).over {
        lemma_run_shrinks(operations, max_steps, results);
        law_every_run_is_runnable(operations, max_steps, results);
        let run = run_after(start, results);
        let (steps, n) = (run.steps_left as int, operations as int);
        assert(steps * n >= n) by (nonlinear_arith)
            requires
                steps >= 1,
                n >= 0,
        ;
        assert(evaluations_left(run) > 0);
    }
}

proof fn lemma_run_shrinks(operations: nat, max_steps: nat, results: Seq<Option<StepView>>)
    requires
        !run_after(run_start(operations, max_steps), results).over,
    ensures
        evaluations_left(run_after(run_start(operations, max_steps), results)) + results.len() <= max_steps
            * operations,
    decreases results.len(),
{
    if results.len() > 0 {
        let earlier = results.drop_last();
        let run = run_after(run_start(operations, max_steps), earlier);
        assert(!run.over);
        lemma_run_shrinks(operations, max_steps, earlier);
        law_every_run_is_runnable(operations, max_steps, earlier);
        lemma_evaluations(run, results.last());
    }
}

/// So many operations in a row that do not apply.
pub open spec fn idle(n: nat) -> Seq<Option<StepView>> {
    Seq::new(n, |i: int| None)
}

proof fn lemma_idle(run: RunView, n: nat)
    requires
        !run.over,
        run.next < run.operations,
    ensures
        run_after(run, idle(n)).barren == run.barren,
        n < run.operations - run.next ==> run_after(run, idle(n)) == (RunView {
            next: (run.next + n) as nat,
            ..run
        }),
        n >= run.operations - run.next ==> run_after(run, idle(n)).over,
    decreases n,
{
    if n > 0 {
        lemma_idle(run, (n - 1) as nat);
        assert(idle(n).drop_last() =~= idle((n - 1) as nat));
    }
}

/// The first operation that applies has its way: one has its turn only when all before it did not
/// apply, and when none applies the run is over.
pub proof fn law_the_first_applicable_operation_applies(run: RunView, n: nat)
    requires
        !run.over,
        run.next == 0,
        run.operations > 0,
    ensures
        n < run.operations ==> !run_after(run, idle(n)).over && run_after(run, idle(n)).next == n,
        n == run.operations ==> run_after(run, idle(n)).over,
{
    lemma_idle(run, n);
}

/// Two steps in a row without progress end a run, whatever does not apply in between.
pub proof fn law_barren_steps_end_a_run(
    run: RunView,
    first: StepView,
    second: StepView,
    between: nat,
)
    requires
        !progressed(first.effects),
        !progressed(second.effects),
    ensures
        run_next(run_after(run_next(run, Some(first)), idle(between)), Some(second)).over,
{
    let after = run_next(run, Some(first));
    if !after.over {
        if after.next < after.operations {
            lemma_idle(after, between);
        } else {
            lemma_idle_over(after, between);
        }
    } else {
        lemma_over_stays(after, idle(between));
    }
}

proof fn lemma_idle_over(run: RunView, n: nat)
    requires
        run.next >= run.operations,
    ensures
        run_after(run, idle(n)).barren == run.barren,
    decreases n,
{
    if n > 0 {
        lemma_idle_over(run, (n - 1) as nat);
        assert(idle(n).drop_last() =~= idle((n - 1) as nat));
    }
}

proof fn lemma_over_stays(run: RunView, results: Seq<Option<StepView>>)
    requires
        run.over,
    ensures
        run_after(run, results) == run,
    decreases results.len(),
{
    if results.len() > 0 {
        lemma_over_stays(run, results.drop_last());
    }
}

/// A run that is over does nothing more: it stays as it is, the transcript too, and nothing is
/// told.
pub proof fn law_over_is_over(
    run: RunView,
    messages: Seq<MessageView>,
    operation: Seq<char>,
    result: Option<StepView>,
)
    requires
        run.over,
    ensures
        run_next(run, result) == run,
        run_messages(run, messages, result) == messages,
        run_events(run, messages, operation, result).len() == 0,
{
}

/// Every effect is told, in order: each message appended, and each replacement with the counts
/// from before and after it.
pub proof fn law_every_effect_is_told(messages: Seq<MessageView>, effects: Seq<EffectView>, i: int)
    requires
        0 <= i < effects.len(),
    ensures
        events_of(messages, effects).len() == effects.len(),
        events_of(messages, effects)[i] == match effects[i] {
            EffectView::AppendMessage(message) => EventView::MessageAppended { message },
            EffectView::ReplaceConversation(replacement) => EventView::HistoryReplaced {
                before: conversation_len(apply_effects(messages, effects.take(i))),
                after: conversation_len(replacement),
            },
        },
    decreases effects.len(),
{
    let earlier = effects.drop_last();
    if i < earlier.len() {
        law_every_effect_is_told(messages, earlier, i);
        assert(earlier.take(i) =~= effects.take(i));
    } else {
        assert(earlier =~= effects.take(i));
        if earlier.len() > 0 {
            law_every_effect_is_told(messages, earlier, 0);
        } else {
            assert(events_of(messages, earlier).len() == 0);
        }
    }
}

/// The end of a run is told when it comes, once, and last.
pub proof fn law_the_end_is_told_once(
    run: RunView,
    messages: Seq<MessageView>,
    operation: Seq<char>,
    result: Option<StepView>,
    i: int,
)
    requires
        0 <= i < run_events(run, messages, operation, result).len(),
    ensures
        run_events(run, messages, operation, result)[i] == EventView::RunFinished <==> {
            &&& run_next(run, result).over
            &&& i == run_events(run, messages, operation, result).len() - 1
        },
{
    if let Some(step) = result {
        if step.effects.len() > 0 {
            law_every_effect_is_told(messages, step.effects, 0);
        }
        if 1 <= i < step.effects.len() + 1 {
            law_every_effect_is_told(messages, step.effects, i - 1);
            assert(run_events(run, messages, operation, result)[i] == events_of(
                messages,
                step.effects,
            )[i - 1]);
        }
    }
}

/// An operation that was evaluated, and its result.
pub struct Evaluation {
    pub operation: Seq<char>,
    pub result: Option<StepView>,
}

/// The results of a row of evaluations.
pub open spec fn results_of(evaluations: Seq<Evaluation>) -> Seq<Option<StepView>> {
    evaluations.map_values(|e: Evaluation| e.result)
}

/// The transcript after a row of evaluations.
pub open spec fn messages_after(
    run: RunView,
    messages: Seq<MessageView>,
    evaluations: Seq<Evaluation>,
) -> Seq<MessageView>
    decreases evaluations.len(),
{
    if evaluations.len() == 0 {
        messages
    } else {
        let earlier = evaluations.drop_last();
        run_messages(
            run_after(run, results_of(earlier)),
            messages_after(run, messages, earlier),
            evaluations.last().result,
        )
    }
}

/// What is told over a row of evaluations.
pub open spec fn events_after(
    run: RunView,
    messages: Seq<MessageView>,
    evaluations: Seq<Evaluation>,
) -> Seq<EventView>
    decreases evaluations.len(),
{
    if evaluations.len() == 0 {
        Seq::empty()
    } else {
        let earlier = evaluations.drop_last();
        events_after(run, messages, earlier) + run_events(
            run_after(run, results_of(earlier)),
            messages_after(run, messages, earlier),
            evaluations.last().operation,
            evaluations.last().result,
        )
    }
}

/// The step that the last of a row of evaluations took: its operation applied, and the run was not
/// over.
pub open spec fn last_step(run: RunView, evaluations: Seq<Evaluation>) -> Option<StepView> {
    if run_after(run, results_of(evaluations.drop_last())).over {
        None
    } else {
        evaluations.last().result
    }
}

/// The effects of all steps taken over a row of evaluations, in order.
pub open spec fn effects_after(run: RunView, evaluations: Seq<Evaluation>) -> Seq<EffectView>
    decreases evaluations.len(),
{
    if evaluations.len() == 0 {
        Seq::empty()
    } else {
        effects_after(run, evaluations.drop_last()) + match last_step(run, evaluations) {
            Some(step) => step.effects,
            None => Seq::empty(),
        }
    }
}

/// What is told of all steps taken over a row of evaluations, in order: of each the operation that
/// applied, then its effects.
pub open spec fn step_events(
    run: RunView,
    messages: Seq<MessageView>,
    evaluations: Seq<Evaluation>,
) -> Seq<EventView>
    decreases evaluations.len(),
{
    if evaluations.len() == 0 {
        Seq::empty()
    } else {
        let earlier = evaluations.drop_last();
        step_events(run, messages, earlier) + match last_step(run, evaluations) {
            Some(step) => seq![
                EventView::OperationApplied { operation: evaluations.last().operation },
            ] + events_of(messages_after(run, messages, earlier), step.effects),
            None => Seq::empty(),
        }
    }
}

proof fn lemma_effects_join(messages: Seq<MessageView>, a: Seq<EffectView>, b: Seq<EffectView>)
    ensures
        apply_effects(messages, a + b) == apply_effects(apply_effects(messages, a), b),
    decreases b.len(),
{
    if b.len() == 0 {
        assert(a + b =~= a);
    } else {
        assert((a + b).drop_last() =~= a + b.drop_last());
        lemma_effects_join(messages, a, b.drop_last());
    }
}

/// The transcript of a run is the one it began with after the effects of all its steps, in order.
pub proof fn law_the_transcript_holds_all_effects(
    run: RunView,
    messages: Seq<MessageView>,
    evaluations: Seq<Evaluation>,
)
    ensures
        messages_after(run, messages, evaluations) == apply_effects(
            messages,
            effects_after(run, evaluations),
        ),
    decreases evaluations.len(),
{
    if evaluations.len() > 0 {
        let earlier = evaluations.drop_last();
        law_the_transcript_holds_all_effects(run, messages, earlier);
        let before = effects_after(run, earlier);
        match last_step(run, evaluations) {
            Some(step) => lemma_effects_join(messages, before, step.effects),
            None => {
                assert(before + Seq::<EffectView>::empty() =~= before);
            },
        }
    }
}

/// A whole run tells its start, then its steps in order, then its end once it is over.
pub proof fn law_a_run_is_told_from_start_to_end(
    operations: nat,
    max_steps: nat,
    messages: Seq<MessageView>,
    evaluations: Seq<Evaluation>,
)
    ensures
        start_events(operations, max_steps) + events_after(
            run_start(operations, max_steps),
            messages,
            evaluations,
        ) == seq![EventView::RunStarted] + step_events(
            run_start(operations, max_steps),
            messages,
            evaluations,
        ) + if run_after(run_start(operations, max_steps), results_of(evaluations)).over {
            seq![EventView::RunFinished]
        } else {
            Seq::empty()
        },
    decreases evaluations.len(),
{
    let start = run_start(operations, max_steps);
    let told = start_events(operations, max_steps) + events_after(start, messages, evaluations);
    let steps = step_events(start, messages, evaluations);
    let end = if run_after(start, results_of(evaluations)).over {
        seq![EventView::RunFinished]
    } else {
        Seq::empty()
    };
    if evaluations.len() == 0 {
        assert(results_of(evaluations) =~= Seq::empty());
        assert(told =~= seq![EventView::RunStarted] + steps + end);
    } else {
        let earlier = evaluations.drop_last();
        law_a_run_is_told_from_start_to_end(operations, max_steps, messages, earlier);
        assert(results_of(evaluations).drop_last() =~= results_of(earlier));
        let run = run_after(start, results_of(earlier));
        let here = messages_after(start, messages, earlier);
        let more = run_events(run, here, evaluations.last().operation, evaluations.last().result);
        assert(told =~= start_events(operations, max_steps) + events_after(start, messages, earlier)
            + more);
        assert(told =~= seq![EventView::RunStarted] + steps + end);
    }
}

/// The steps tell neither a start nor an end: of a whole run each is told once.
pub proof fn law_steps_tell_no_start_and_no_end(
    run: RunView,
    messages: Seq<MessageView>,
    evaluations: Seq<Evaluation>,
    i: int,
)
    requires
        0 <= i < step_events(run, messages, evaluations).len(),
    ensures
        step_events(run, messages, evaluations)[i] != EventView::RunStarted,
        step_events(run, messages, evaluations)[i] != EventView::RunFinished,
    decreases evaluations.len(),
{
    let earlier = evaluations.drop_last();
    let before = step_events(run, messages, earlier);
    if i < before.len() {
        law_steps_tell_no_start_and_no_end(run, messages, earlier, i);
    } else if let Some(step) = last_step(run, evaluations) {
        let told = events_of(messages_after(run, messages, earlier), step.effects);
        if i > before.len() {
            if step.effects.len() > 0 {
                law_every_effect_is_told(
                    messages_after(run, messages, earlier),
                    step.effects,
                    0,
                );
                law_every_effect_is_told(
                    messages_after(run, messages, earlier),
                    step.effects,
                    i - before.len() - 1,
                );
            }
            assert(step_events(run, messages, evaluations)[i] == told[i - before.len() - 1]);
        }
    }
}

/// Effects are applied one by one: a message goes behind what is there, a replacement takes the
/// place of all of it, and no effect changes nothing.
pub proof fn law_effects_are_applied_one_by_one(
    messages: Seq<MessageView>,
    effects: Seq<EffectView>,
    message: MessageView,
    replacement: Seq<MessageView>,
)
    ensures
        apply_effects(messages, Seq::empty()) == messages,
        apply_effects(messages, effects.push(EffectView::AppendMessage(message)))
            == apply_effects(messages, effects).push(message),
        apply_effects(messages, effects.push(EffectView::ReplaceConversation(replacement)))
            == replacement,
{
    assert(effects.push(EffectView::AppendMessage(message)).drop_last() =~= effects);
    assert(effects.push(EffectView::ReplaceConversation(replacement)).drop_last() =~= effects);
}

/// After a step whose last effect replaces the conversation the transcript is the replacement,
/// message for message, whether the model or the human sees a message or neither does.
pub proof fn law_a_replacement_becomes_the_transcript(
    run: RunView,
    messages: Seq<MessageView>,
    step: StepView,
    replacement: Seq<MessageView>,
)
    requires
        !run.over,
        step.effects.len() > 0,
        step.effects.last() == EffectView::ReplaceConversation(replacement),
    ensures
        run_messages(run, messages, Some(step)).len() == replacement.len(),
        forall|i: int|
            0 <= i < replacement.len() ==> #[trigger] run_messages(run, messages, Some(step))[i]
                == replacement[i],
{
}

/// A step that only appends keeps all that was there, in its place, and adds each message, whoever
/// sees it.
pub proof fn law_appended_messages_are_added(
    run: RunView,
    messages: Seq<MessageView>,
    step: StepView,
)
    requires
        !run.over,
        forall|i: int|
            0 <= i < step.effects.len() ==> #[trigger] step.effects[i] is AppendMessage,
    ensures
        run_messages(run, messages, Some(step)).len() == messages.len() + step.effects.len(),
        forall|i: int|
            0 <= i < messages.len() ==> #[trigger] run_messages(run, messages, Some(step))[i]
                == messages[i],
        forall|i: int|
            0 <= i < step.effects.len() ==> EffectView::AppendMessage(
                #[trigger] run_messages(run, messages, Some(step))[messages.len() + i],
            ) == step.effects[i],
    decreases step.effects.len(),
{
    if step.effects.len() > 0 {
        let rest = StepView { effects: step.effects.drop_last(), ..step };
        assert forall|i: int| 0 <= i < rest.effects.len() implies
            #[trigger] rest.effects[i] is AppendMessage by {
            assert(rest.effects[i] == step.effects[i]);
        }
        law_appended_messages_are_added(run, messages, rest);
        let before = run_messages(run, messages, Some(rest));
        let n = step.effects.len() - 1;
        assert(step.effects[n] is AppendMessage);
        assert(run_messages(run, messages, Some(step)) == before.push(
            step.effects[n]->AppendMessage_0,
        ));
        assert forall|i: int| 0 <= i < step.effects.len() implies EffectView::AppendMessage(
            #[trigger] run_messages(run, messages, Some(step))[messages.len() + i],
        ) == step.effects[i] by {
            if i < n {
                assert(EffectView::AppendMessage(before[messages.len() + i]) == rest.effects[i]);
            }
        }
    }
}

/// After a compaction every message that the model does not see is still in the transcript, in
/// order: questions, notices and faults.
pub proof fn law_compaction_loses_nothing_hidden(
    run: RunView,
    messages: Seq<MessageView>,
    keep_head: int,
    keep_tail: int,
    result: Option<StepView>,
    kept: Seq<MessageView>,
    dropped: nat,
)
    requires
        !run.over,
        0 <= keep_head,
        compaction(messages, keep_head, keep_tail) == Some((kept, dropped)),
        replaces(result, kept, dropped),
    ensures
        run_messages(run, messages, result).filter(|m: MessageView| !m.body.agent_visible)
            == messages.filter(|m: MessageView| !m.body.agent_visible),
{
    let hidden = |m: MessageView| !m.body.agent_visible;
    let stays = |m: MessageView| !droppable(m);
    let any = |m: MessageView| true;
    let effects = result->0.effects;
    let out = effects[0]->ReplaceConversation_0;
    assert(effects.last() == effects[0]);
    assert(run_messages(run, messages, result) == out);
    assert(out =~= kept.push(out.last()));
    kept.lemma_filter_push(out.last(), hidden);
    law_only_the_models_view_shrinks(messages, keep_head, keep_tail);
    assert(kept.filter(stays) == messages.filter(stays));
    lemma_filters_meet(kept, stays, hidden, hidden, any);
    lemma_filters_meet(messages, stays, hidden, hidden, any);
    lemma_all_stay(kept.filter(hidden), any);
    lemma_all_stay(messages.filter(hidden), any);
}

/// A step brings progress where it replaces the conversation or appends anything but a fault.
pub proof fn law_what_is_progress(effects: Seq<EffectView>, effect: EffectView)
    ensures
        !progressed(Seq::empty()),
        progressed(effects.push(effect)) <==> progressed(effects) || match effect {
            EffectView::ReplaceConversation(_) => true,
            EffectView::AppendMessage(message) => message.body.error_kind is None,
        },
{
    let all = effects.push(effect);
    assert(all[effects.len() as int] == effect);
    if progressed(effects) {
        let i = choose|i: int| 0 <= i < effects.len() && (#[trigger] effects[i]).is_progress();
        assert(all[i] == effects[i]);
    }
    if progressed(all) && !effect.is_progress() {
        let i = choose|i: int| 0 <= i < all.len() && (#[trigger] all[i]).is_progress();
        assert(all[i] == effects[i]);
    }
}

/// A run starts at the first operation with all its steps, 15 where nothing else is configured, and
/// is over at once only where there is no operation or no step.
pub proof fn law_how_a_run_starts(operations: nat, max_steps: nat)
    ensures
        run_start(operations, max_steps).over <==> operations == 0 || max_steps == 0,
        run_start(operations, max_steps).operations == operations,
        run_start(operations, max_steps).next == 0,
        run_start(operations, max_steps).barren == 0,
        run_start(operations, max_steps).steps_left == max_steps,
        DEFAULT_MAX_STEPS == 15,
        start_events(operations, max_steps)[0] == EventView::RunStarted,
        operations > 0 && max_steps > 0 ==> start_events(operations, max_steps).len() == 1,
        operations == 0 || max_steps == 0 ==> start_events(operations, max_steps).len() == 2
            && start_events(operations, max_steps)[1] == EventView::RunFinished,
{
}

/// How a run goes on from a step: it is over where the operation yields, at the second step in a
/// row without progress, or where that was the last step, and not otherwise. The pipeline then
/// starts anew.
pub proof fn law_when_a_step_ends_a_run(run: RunView, step: StepView)
    requires
        !run.over,
        run.steps_left > 0,
    ensures
        run_next(run, Some(step)).over <==> {
            ||| step.yield_turn
            ||| run.steps_left == 1
            ||| !progressed(step.effects) && run.barren >= 1
        },
        run_next(run, Some(step)).next == 0,
        run_next(run, Some(step)).steps_left == run.steps_left - 1,
        run_next(run, Some(step)).operations == run.operations,
        progressed(step.effects) ==> run_next(run, Some(step)).barren == 0,
        !progressed(step.effects) ==> run_next(run, Some(step)).barren == run.barren + 1,
{
}

/// An operation that does not apply takes no step and is told to nobody; the next one has its
/// turn, and without one the run is over.
pub proof fn law_an_operation_that_does_not_apply(
    run: RunView,
    messages: Seq<MessageView>,
    operation: Seq<char>,
)
    requires
        !run.over,
        run.next < run.operations,
    ensures
        run_messages(run, messages, None) == messages,
        run_next(run, None).next == run.next + 1,
        run_next(run, None).steps_left == run.steps_left,
        run_next(run, None).barren == run.barren,
        run_next(run, None).operations == run.operations,
        run_next(run, None).over <==> run.next + 1 == run.operations,
        run.next + 1 < run.operations ==> run_events(run, messages, operation, None).len() == 0,
        run.next + 1 == run.operations ==> run_events(run, messages, operation, None) == seq![
            EventView::RunFinished,
        ],
{
    assert(run_events(run, messages, operation, None) =~= if run.next + 1 == run.operations {
        seq![EventView::RunFinished]
    } else {
        Seq::empty()
    });
}

/// An operation that applies is told by its name, before what it did; and nothing else is told but
/// what it did, and the end where it comes.
pub proof fn law_an_operation_that_applies_is_told_first(
    run: RunView,
    messages: Seq<MessageView>,
    operation: Seq<char>,
    step: StepView,
)
    requires
        !run.over,
    ensures
        run_messages(run, messages, Some(step)) == apply_effects(messages, step.effects),
        run_events(run, messages, operation, Some(step))[0] == (EventView::OperationApplied {
            operation,
        }),
        run_events(run, messages, operation, Some(step)).len() == 1 + step.effects.len()
            + if run_next(run, Some(step)).over {
            1int
        } else {
            0
        },
        forall|i: int|
            0 <= i < step.effects.len() ==> #[trigger] run_events(
                run,
                messages,
                operation,
                Some(step),
            )[i + 1] == events_of(messages, step.effects)[i],
{
    if step.effects.len() > 0 {
        law_every_effect_is_told(messages, step.effects, 0);
    } else {
        assert(events_of(messages, step.effects).len() == 0);
    }
}

/// As long as every step brings progress and none yields, a run takes all its steps, and ends
/// with the last one.
pub proof fn law_a_run_uses_all_its_steps(
    operations: nat,
    max_steps: nat,
    results: Seq<Option<StepView>>,
)
    requires
        operations > 0,
        results.len() <= max_steps,
        max_steps > 0,
        forall|i: int|
            0 <= i < results.len() ==> (#[trigger] results[i] matches Some(step)
                && !step.yield_turn && progressed(step.effects)),
    ensures
        steps_taken(run_start(operations, max_steps), results) == results.len(),
        run_after(run_start(operations, max_steps), results).over <==> results.len() == max_steps,
    decreases results.len(),
{
    let start = run_start(operations, max_steps);
    if results.len() > 0 {
        let rest = results.drop_last();
        assert forall|i: int| 0 <= i < rest.len() implies (#[trigger] rest[i] matches Some(step)
            && !step.yield_turn && progressed(step.effects)) by {
            assert(rest[i] == results[i]);
        }
        law_a_run_uses_all_its_steps(operations, max_steps, rest);
        law_steps_are_limited(operations, max_steps, rest);
        law_every_run_is_runnable(operations, max_steps, rest);
        assert(results[results.len() - 1] is Some);
    }
}

/// One step without progress ends no run by itself: where the next one brings progress, it is
/// forgotten.
pub proof fn law_one_barren_step_is_forgiven(run: RunView, first: StepView, second: StepView)
    requires
        !run.over,
        run.barren == 0,
        run.steps_left > 2,
        !first.yield_turn,
        !second.yield_turn,
        progressed(second.effects),
    ensures
        !run_next(run, Some(first)).over,
        !run_next(run_next(run, Some(first)), Some(second)).over,
        run_next(run_next(run, Some(first)), Some(second)).barren == 0,
{
}

} // verus!
