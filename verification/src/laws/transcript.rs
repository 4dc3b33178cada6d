//! What new messages do to a transcript.

use crate::engine::apply_effects;
use crate::filter::{lemma_all_stay, lemma_filter_keeps, lemma_filter_source, lemma_same_filter};
use crate::message::{
    agent_view, answer_due, answered, awaiting, calls_of, declared_calls, error_body, last_fault,
    pending_calls, plain_body, user_view, MessageView, Role, ToolCallView,
};
use crate::operations::tool_exec::{calls_to_run, request_at};
use crate::pairing::{declared_ids, only_results_between, pairing_after, pairing_ok};
use crate::pipeline::EffectView;
use crate::provider_error::ErrorKind;
use crate::search::{last_in, lemma_last_in, lemma_same_search, lemma_search_shorter};
use vstd::prelude::*;

verus! {

/// The messages that the effects append.
pub open spec fn appended(effects: Seq<EffectView>) -> Seq<MessageView> {
    effects.map_values(|e: EffectView| e->AppendMessage_0)
}

/// Every effect appends a message.
pub open spec fn only_appends(effects: Seq<EffectView>) -> bool {
    forall|i: int| 0 <= i < effects.len() ==> #[trigger] effects[i] is AppendMessage
}

/// Effects that append leave what was there, and put the messages behind it, in order.
pub proof fn law_history_only_grows(messages: Seq<MessageView>, effects: Seq<EffectView>)
    requires
        only_appends(effects),
    ensures
        apply_effects(messages, effects) == messages + appended(effects),
    decreases effects.len(),
{
    if effects.len() == 0 {
        assert(messages + appended(effects) =~= messages);
    } else {
        let earlier = effects.drop_last();
        assert forall|i: int| 0 <= i < earlier.len() implies #[trigger] earlier[i] is AppendMessage by {
            assert(earlier[i] == effects[i]);
        }
        law_history_only_grows(messages, earlier);
        assert(effects[effects.len() - 1] is AppendMessage);
        assert(appended(effects) =~= appended(earlier).push(effects.last()->AppendMessage_0));
        assert(messages + appended(effects) =~= (messages + appended(earlier)).push(
            effects.last()->AppendMessage_0,
        ));
    }
}

/// What nobody of one side sees leaves the view of that side as it was.
pub proof fn law_views_are_independent(messages: Seq<MessageView>, message: MessageView)
    ensures
        !message.body.agent_visible ==> agent_view(messages.push(message)) == agent_view(messages),
        !message.body.user_visible ==> user_view(messages.push(message)) == user_view(messages),
        message.body.agent_visible ==> agent_view(messages.push(message)) == agent_view(
            messages,
        ).push(message),
        message.body.user_visible ==> user_view(messages.push(message)) == user_view(messages).push(
            message,
        ),
{
    messages.lemma_filter_push(message, |m: MessageView| m.body.agent_visible);
    messages.lemma_filter_push(message, |m: MessageView| m.body.user_visible);
}

/// An upstream fault is no question to the human: the next input is a turn of the conversation.
/// The model does not see the fault, the human does.
pub proof fn law_a_fault_is_no_question(
    messages: Seq<MessageView>,
    fault: MessageView,
    kind: ErrorKind,
    detail: Seq<char>,
)
    requires
        fault.body == error_body(kind, detail),
    ensures
        !awaiting(messages.push(fault)),
        !answer_due(messages.push(fault)),
        last_fault(messages.push(fault)) == Some(kind),
        agent_view(messages.push(fault)) == agent_view(messages),
        user_view(messages.push(fault)) == user_view(messages).push(fault),
{
    law_views_are_independent(messages, fault);
}

/// A fault matters for the next step alone: any message after it hides it.
pub proof fn law_later_messages_hide_a_fault(messages: Seq<MessageView>, message: MessageView)
    requires
        message.body.error_kind is None,
    ensures
        last_fault(messages.push(message)) is None,
{
}

/// A record that calls wait for a decision is a question to the human, and neither side sees it.
pub proof fn law_a_pending_record_is_a_question(
    messages: Seq<MessageView>,
    record: MessageView,
    content: Seq<char>,
)
    requires
        record.body == plain_body(Role::Assistant, content, false, false),
    ensures
        awaiting(messages.push(record)),
        agent_view(messages.push(record)) == agent_view(messages),
        user_view(messages.push(record)) == user_view(messages),
{
    law_views_are_independent(messages, record);
}

/// Words keep a legal transcript legal: so do human turns, replies without calls, marks, faults,
/// and whatever the model does not see.
pub proof fn law_words_keep_the_protocol(messages: Seq<MessageView>, message: MessageView)
    requires
        pairing_ok(messages),
        message.body.agent_visible ==> message.body.role != Role::Tool && message.body.tool_calls
            is None,
    ensures
        pairing_ok(messages.push(message)),
{
    assert(messages.push(message).drop_last() =~= messages);
}

/// What the model does not see changes nothing in a round trip.
pub proof fn law_hidden_messages_leave_round_trips_open(
    messages: Seq<MessageView>,
    message: MessageView,
)
    requires
        !message.body.agent_visible,
        pairing_after(messages) is Some,
    ensures
        pairing_after(messages.push(message)) == pairing_after(messages),
{
    assert(messages.push(message).drop_last() =~= messages);
}

/// A reply with calls opens a round trip: just these calls wait, and they are the ones to run.
pub proof fn law_calls_open_a_round_trip(
    messages: Seq<MessageView>,
    message: MessageView,
    calls: Seq<ToolCallView>,
)
    requires
        pairing_ok(messages),
        message.body.agent_visible,
        message.body.role == Role::Assistant,
        message.body.tool_calls == Some(calls),
        calls.len() > 0,
    ensures
        pairing_after(messages.push(message)) == Some(declared_ids(calls)),
        !pairing_ok(messages.push(message)),
        calls_to_run(messages.push(message)) == Some(calls),
{
    let names = calls.map_values(|c: ToolCallView| c.id);
    assert(messages.push(message).drop_last() =~= messages);
    assert(names[0] == calls[0].id);
    assert(declared_ids(calls).contains(calls[0].id));
    lemma_new_calls_run(messages, message, Seq::empty(), calls);
    assert(messages.push(message) + Seq::<MessageView>::empty() =~= messages.push(message));
}

/// Messages that are no tool results settle no call.
pub proof fn lemma_still_unanswered(
    messages: Seq<MessageView>,
    later: Seq<MessageView>,
    id: Seq<char>,
)
    requires
        !answered(messages, id),
        forall|i: int| 0 <= i < later.len() ==> (#[trigger] later[i]).body.role != Role::Tool,
    ensures
        !answered(messages + later, id),
{
    let all = messages + later;
    assert forall|i: int| 0 <= i < all.len() implies !((#[trigger] all[i]).body.role == Role::Tool
        && all[i].body.tool_call_id == Some(id)) by {
        if i < messages.len() {
            assert(all[i] == messages[i]);
        } else {
            assert(all[i] == later[i - messages.len()]);
        }
    }
}

/// Calls are the ones to run, all of them, as long as nothing follows them but what the model does
/// not see and what neither declares nor settles calls.
pub proof fn lemma_new_calls_run(
    messages: Seq<MessageView>,
    message: MessageView,
    behind: Seq<MessageView>,
    calls: Seq<ToolCallView>,
)
    requires
        message.body.role == Role::Assistant,
        message.body.tool_calls == Some(calls),
        calls.len() > 0,
        forall|i: int|
            0 <= i < behind.len() ==> {
                &&& !(#[trigger] behind[i]).body.agent_visible
                &&& behind[i].body.role != Role::Tool
                &&& calls_of(behind[i]).len() == 0
            },
    ensures
        calls_to_run(messages.push(message) + behind) == Some(calls),
{
    let all = messages.push(message) + behind;
    let at = messages.len() as int;
    let declares = |i: int| calls_of(all[i]).len() > 0;
    assert(all[at] == message);
    assert forall|k: int| at < k < all.len() implies !(#[trigger] all[k]).body.agent_visible
        && !declares(k) by {
        assert(all[k] == behind[k - at - 1]);
    }
    lemma_last_in(0, all.len() - 1, declares);
    assert(declares(at));
    assert(request_at(all) == Some(at));
    assert(all.skip(at + 1) =~= behind);
    lemma_all_stay(calls, |c: ToolCallView| !answered(all.skip(at + 1), c.id));
}

/// A row of messages that declare nothing declares nothing.
proof fn lemma_nothing_declared(messages: Seq<MessageView>, later: Seq<MessageView>)
    requires
        forall|i: int| 0 <= i < later.len() ==> calls_of(#[trigger] later[i]).len() == 0,
    ensures
        declared_calls(messages + later) == declared_calls(messages),
    decreases later.len(),
{
    if later.len() == 0 {
        assert(messages + later =~= messages);
    } else {
        let rest = later.drop_last();
        assert forall|i: int| 0 <= i < rest.len() implies calls_of(#[trigger] rest[i]).len() == 0 by {
            assert(rest[i] == later[i]);
        }
        lemma_nothing_declared(messages, rest);
        assert((messages + later).drop_last() =~= messages + rest);
        assert(calls_of(later[later.len() - 1]) =~= Seq::empty());
        assert(declared_calls(messages) + Seq::<ToolCallView>::empty() =~= declared_calls(messages));
    }
}

/// A call that has its result keeps it.
pub proof fn law_results_stay(messages: Seq<MessageView>, later: Seq<MessageView>, id: Seq<char>)
    requires
        answered(messages, id),
    ensures
        answered(messages + later, id),
{
    let i = choose|i: int|
        0 <= i < messages.len() && (#[trigger] messages[i]).body.role == Role::Tool
            && messages[i].body.tool_call_id == Some(id);
    assert((messages + later)[i] == messages[i]);
}

/// A message that declares no calls, and that the model does not see unless it is a tool result.
pub open spec fn is_quiet(message: MessageView) -> bool {
    &&& calls_of(message).len() == 0
    &&& message.body.agent_visible ==> message.body.role == Role::Tool
}

/// Behind quiet messages the same calls are up.
pub proof fn lemma_quiet_messages_keep_the_request(
    messages: Seq<MessageView>,
    later: Seq<MessageView>,
)
    requires
        forall|i: int| 0 <= i < later.len() ==> is_quiet(#[trigger] later[i]),
    ensures
        request_at(messages + later) == request_at(messages),
        request_at(messages) matches Some(at) ==> 0 <= at < messages.len() && calls_of(
            messages[at],
        ).len() > 0,
{
    let all = messages + later;
    let n = messages.len() as int;
    let before = |i: int| calls_of(messages[i]).len() > 0;
    let after = |i: int| calls_of(all[i]).len() > 0;
    lemma_last_in(0, n - 1, before);
    lemma_last_in(0, all.len() - 1, after);
    assert forall|k: int| 0 <= k <= n - 1 implies #[trigger] before(k) == after(k) by {
        assert(all[k] == messages[k]);
    }
    lemma_same_search(0, n - 1, before, after);
    assert forall|k: int| n <= k < all.len() implies !#[trigger] after(k) by {
        assert(all[k] == later[k - n]);
        assert(is_quiet(later[k - n]));
    }
    lemma_search_shorter(0, n - 1, all.len() - 1, after);
    if let Some(at) = last_in(0, n - 1, before) {
        if only_results_between(messages, at, n) {
            assert forall|k: int|
                at < k < all.len() && 0 <= k < all.len() && (
                #[trigger] all[k]).body.agent_visible implies all[k].body.role == Role::Tool by {
                if k < n {
                    assert(all[k] == messages[k]);
                } else {
                    assert(all[k] == later[k - n]);
                    assert(is_quiet(later[k - n]));
                }
            }
        }
        if only_results_between(all, at, all.len() as int) {
            assert forall|k: int|
                at < k < n && 0 <= k < n && (
                #[trigger] messages[k]).body.agent_visible implies messages[k].body.role
                == Role::Tool by {
                assert(all[k] == messages[k]);
            }
        }
    }
}

/// What the model does not see, and what neither declares nor settles calls, leaves the same calls
/// to run.
pub proof fn law_hidden_messages_change_no_calls_to_run(
    messages: Seq<MessageView>,
    message: MessageView,
)
    requires
        !message.body.agent_visible,
        message.body.role != Role::Tool,
        calls_of(message).len() == 0,
    ensures
        calls_to_run(messages.push(message)) == calls_to_run(messages),
{
    let all = messages.push(message);
    let later = seq![message];
    assert(all =~= messages + later);
    lemma_quiet_messages_keep_the_request(messages, later);
    if let Some(at) = request_at(messages) {
        let rest = messages.skip(at + 1);
        let calls = calls_of(messages[at]);
        let before = |c: ToolCallView| !answered(rest, c.id);
        let after = |c: ToolCallView| !answered(all.skip(at + 1), c.id);
        assert(all[at] == messages[at]);
        assert(all.skip(at + 1) =~= rest + later);
        assert forall|i: int| 0 <= i < calls.len() implies before(#[trigger] calls[i]) == after(
            calls[i],
        ) by {
            if before(calls[i]) {
                lemma_still_unanswered(rest, later, calls[i].id);
            } else {
                law_results_stay(rest, later, calls[i].id);
            }
        }
        lemma_same_filter(calls, before, after);
    }
}

/// Tool results settle calls: what waits behind them waited before, and has no result among them.
pub proof fn law_results_settle_calls(messages: Seq<MessageView>, results: Seq<MessageView>, n: int)
    requires
        forall|i: int| 0 <= i < results.len() ==> (#[trigger] results[i]).body.role == Role::Tool,
        0 <= n < pending_calls(messages + results).len(),
    ensures
        pending_calls(messages).contains(pending_calls(messages + results)[n]),
        forall|i: int|
            0 <= i < results.len() ==> (#[trigger] results[i]).body.tool_call_id != Some(
                pending_calls(messages + results)[n].id,
            ),
{
    let all = messages + results;
    let call = pending_calls(all)[n];
    let before = |c: ToolCallView| !answered(messages, c.id);
    let after = |c: ToolCallView| !answered(all, c.id);
    lemma_nothing_declared(messages, results);
    let declared = declared_calls(messages);
    declared.lemma_filter_pred(after, n);
    lemma_filter_source(declared, after, n);
    let k = choose|k: int| 0 <= k < declared.len() && #[trigger] declared[k] == call;
    if answered(messages, call.id) {
        law_results_stay(messages, results, call.id);
    }
    lemma_filter_keeps(declared, before, k);
    assert forall|i: int| 0 <= i < results.len() implies (
    #[trigger] results[i]).body.tool_call_id != Some(call.id) by {
        assert(all[messages.len() + i] == results[i]);
    }
}

} // verus!
