//! How inference and compaction work together when the context outgrows the model.

use crate::engine::{apply_effects, progressed};
use crate::laws::compaction::law_same_evidence_is_used_once;
use crate::message::{
    agent_view, answer_due, error_body, is_new_fact, last_fault, new_evidence, unmarked_from,
    MessageView,
};
use crate::operations::compaction::{marked, replaces, trigger_for, Trigger};
use crate::operations::inference::{records_fault, request_plan};
use crate::pipeline::{EffectView, StepView};
use crate::provider_error::ErrorKind;
use vstd::prelude::*;

verus! {

/// The transcript with the fault on record.
proof fn lemma_on_record(
    result: Option<StepView>,
    messages: Seq<MessageView>,
    kind: ErrorKind,
    detail: Seq<char>,
) -> (fault: MessageView)
    requires
        records_fault(result, messages, kind, detail),
    ensures
        fault.body == error_body(kind, detail),
        result->0.effects == seq![EffectView::AppendMessage(fault)],
        apply_effects(messages, result->0.effects) == messages.push(fault),
{
    let effects = result->0.effects;
    let fault = effects[0]->AppendMessage_0;
    assert(effects =~= seq![EffectView::AppendMessage(fault)]);
    assert(effects.drop_last() =~= Seq::empty());
    assert(apply_effects(messages, effects.drop_last()) == messages);
    fault
}

/// An evidence that is still good stays good when a fault is put on record.
proof fn lemma_fault_keeps_evidence(messages: Seq<MessageView>, fault: MessageView)
    requires
        new_evidence(messages),
        !fault.body.is_compaction_marker(),
    ensures
        new_evidence(messages.push(fault)),
{
    let all = messages.push(fault);
    if unmarked_from(messages, 0) {
        assert forall|j: int| 0 <= j < all.len() implies !(
        #[trigger] all[j]).body.is_compaction_marker() by {
            if j < messages.len() {
                assert(all[j] == messages[j]);
            }
        }
        assert(unmarked_from(all, 0));
    } else {
        let k = choose|k: int|
            0 <= k < messages.len() && is_new_fact(#[trigger] messages[k]) && unmarked_from(
                messages,
                k,
            );
        assert(all[k] == messages[k]);
        assert forall|j: int| k <= j < all.len() implies !(
        #[trigger] all[j]).body.is_compaction_marker() by {
            if j < messages.len() {
                assert(all[j] == messages[j]);
            }
        }
        assert(unmarked_from(all, k));
    }
}

/// The first overflow in a row, on new evidence, keeps the turn: in the next step compaction has
/// its reason, and the evidence is still good.
pub proof fn law_first_overflow_leads_to_compaction(
    result: Option<StepView>,
    messages: Seq<MessageView>,
    detail: Seq<char>,
    budget: u32,
)
    requires
        records_fault(result, messages, ErrorKind::ContextLengthExceeded, detail),
        last_fault(messages) != Some(ErrorKind::ContextLengthExceeded),
        new_evidence(messages),
    ensures
        !result->0.yield_turn,
        trigger_for(apply_effects(messages, result->0.effects), budget) == Some(Trigger::Recover),
        new_evidence(apply_effects(messages, result->0.effects)),
{
    let fault = lemma_on_record(result, messages, ErrorKind::ContextLengthExceeded, detail);
    lemma_fault_keeps_evidence(messages, fault);
}

/// An overflow behind a compaction ends the turn, as long as no usage was reported and no human
/// spoke in between: recovery is tried once.
pub proof fn law_recovery_is_tried_once(
    kept: Seq<MessageView>,
    dropped: nat,
    out: Seq<MessageView>,
    later: Seq<MessageView>,
    result: Option<StepView>,
    kind: ErrorKind,
    detail: Seq<char>,
)
    requires
        marked(out, kept, dropped),
        forall|k: int| 0 <= k < later.len() ==> !is_new_fact(#[trigger] later[k]),
        records_fault(result, out + later, kind, detail),
    ensures
        result->0.yield_turn,
{
    law_same_evidence_is_used_once(kept, dropped, out, later, 0, 0, 1);
}

/// The same overflow twice in a row ends the turn: nothing could be compacted in between.
pub proof fn law_a_repeated_overflow_ends_the_turn(
    result: Option<StepView>,
    messages: Seq<MessageView>,
    detail: Seq<char>,
)
    requires
        records_fault(result, messages, ErrorKind::ContextLengthExceeded, detail),
        last_fault(messages) == Some(ErrorKind::ContextLengthExceeded),
    ensures
        result->0.yield_turn,
{
}

/// Every other fault ends the turn, on record and without harm to the conversation: the model
/// does not see it, it waits for no answer, and it is no progress.
pub proof fn law_a_fault_is_put_on_record(
    result: Option<StepView>,
    messages: Seq<MessageView>,
    kind: ErrorKind,
    detail: Seq<char>,
)
    requires
        records_fault(result, messages, kind, detail),
    ensures
        kind != ErrorKind::ContextLengthExceeded ==> result->0.yield_turn,
        last_fault(apply_effects(messages, result->0.effects)) == Some(kind),
        apply_effects(messages, result->0.effects).last().body.content == detail,
        agent_view(apply_effects(messages, result->0.effects)) == agent_view(messages),
        !answer_due(apply_effects(messages, result->0.effects)),
        !progressed(result->0.effects),
{
    let fault = lemma_on_record(result, messages, kind, detail);
    messages.lemma_filter_push(fault, |m: MessageView| m.body.agent_visible);
}

/// A compaction is progress, and the turn goes on.
pub proof fn law_compaction_is_progress(
    result: Option<StepView>,
    kept: Seq<MessageView>,
    dropped: nat,
)
    requires
        replaces(result, kept, dropped),
    ensures
        progressed(result->0.effects),
        !result->0.yield_turn,
{
    assert(result->0.effects[0].is_progress());
}

/// Only what the model sees is sent: two transcripts with the same view make the same request.
pub proof fn law_requests_hold_the_models_view(
    prompt: Option<Seq<char>>,
    a: Seq<MessageView>,
    b: Seq<MessageView>,
)
    requires
        agent_view(a) == agent_view(b),
    ensures
        request_plan(prompt, a) == request_plan(prompt, b),
        request_plan(prompt, a).len() == agent_view(a).len() + if prompt is Some {
            1nat
        } else {
            0
        },
{
}

} // verus!
