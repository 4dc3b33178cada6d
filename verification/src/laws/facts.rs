//! What one more message changes in what can be read off a transcript.

use crate::engine::{conversation_len, in_conversation};
use crate::filter::{lemma_all_stay, lemma_filters_meet, lemma_same_filter};
use crate::laws::text::{law_beginnings, law_decimal_is_unique, law_endings};
use crate::laws::transcript::{
    law_results_stay, lemma_new_calls_run, lemma_quiet_messages_keep_the_request,
};
use crate::message::{
    agent_view, answer_due, answered, awaiting, calls_of, completion_sum, declared_calls,
    error_body, is_new_fact, last_fault, last_report_at, last_usage,
    law_the_last_report_is_the_last_usage, marker_body, new_evidence, pending_calls, plain_body,
    prompt_sum, tool_response_body, total_sum, unmarked_from, usage_fits, user_view, BodyView,
    MessageView, Role, ToolCallView,
};
use crate::operations::compaction::{trigger_for, Trigger};
use crate::operations::tool_approval::{allows, carries_calls, decision, is_answer};
use crate::operations::tool_exec::{calls_to_run, request_at};
use crate::pairing::{declared_ids, only_results_between, pairing_after, pairing_ok};
use crate::provider_error::ErrorKind;
use crate::search::{last_in, lemma_last_in, lemma_same_search};
use crate::text::decimal;
use vstd::prelude::*;

verus! {

/// A new report is the last one, and the budget is held against it alone: below the budget there is
/// no reason to compact, at the budget there is, and a message without a report changes nothing.
pub proof fn law_the_budget_is_held_against_the_last_report(
    messages: Seq<MessageView>,
    message: MessageView,
    budget: u32,
)
    ensures
        message.body.usage matches Some(usage) ==> last_usage(messages.push(message)) == Some(
            usage,
        ),
        message.body.usage is None ==> last_usage(messages.push(message)) == last_usage(messages),
        message.body.error_kind is None ==> (message.body.usage matches Some(usage)
            ==> trigger_for(messages.push(message), budget) == if usage.prompt < budget {
            None
        } else {
            Some(Trigger::Proactive { prompt_tokens: usage.prompt })
        }),
        message.body.error_kind == Some(ErrorKind::ContextLengthExceeded) ==> trigger_for(
            messages.push(message),
            budget,
        ) == Some(Trigger::Recover),
        message.body.error_kind != Some(ErrorKind::ContextLengthExceeded) && message.body.usage
            is None && last_fault(messages) != Some(ErrorKind::ContextLengthExceeded)
            ==> trigger_for(messages.push(message), budget) == trigger_for(messages, budget),
        message.body.error_kind != Some(ErrorKind::ContextLengthExceeded) ==> trigger_for(
            messages.push(message),
            budget,
        ) != Some(Trigger::Recover),
        trigger_for(Seq::empty(), budget) is None,
{
    assert(messages.push(message).drop_last() =~= messages);
}

/// Without an overflow as the last message there is no reason to compact as long as nothing was
/// reported.
pub proof fn law_no_report_is_no_reason(messages: Seq<MessageView>, budget: u32)
    requires
        messages.len() > 0 ==> messages.last().body.error_kind != Some(
            ErrorKind::ContextLengthExceeded,
        ),
        forall|k: int| 0 <= k < messages.len() ==> (#[trigger] messages[k]).body.usage is None,
    ensures
        trigger_for(messages, budget) is None,
{
    law_the_last_report_is_the_last_usage(messages);
}

/// Without an overflow as the last message the reason to compact is the last report, wherever it
/// stands, and nothing else.
pub proof fn law_why_to_compact(messages: Seq<MessageView>, k: int, budget: u32)
    requires
        messages.len() > 0,
        messages.last().body.error_kind != Some(ErrorKind::ContextLengthExceeded),
        0 <= k < messages.len(),
        messages[k].body.usage is Some,
        forall|j: int| k < j < messages.len() ==> (#[trigger] messages[j]).body.usage is None,
    ensures
        trigger_for(messages, budget) == if (messages[k].body.usage->0).prompt < budget {
            None
        } else {
            Some(Trigger::Proactive { prompt_tokens: (messages[k].body.usage->0).prompt })
        },
{
    law_the_last_report_is_the_last_usage(messages);
    assert(last_report_at(messages, k));
}

/// The sums grow by what a message reports, count by count, from 0.
pub proof fn law_usages_add_up(messages: Seq<MessageView>, message: MessageView)
    ensures
        prompt_sum(Seq::empty()) == 0,
        completion_sum(Seq::empty()) == 0,
        total_sum(Seq::empty()) == 0,
        message.body.usage is None ==> prompt_sum(messages.push(message)) == prompt_sum(messages)
            && completion_sum(messages.push(message)) == completion_sum(messages) && total_sum(
            messages.push(message),
        ) == total_sum(messages),
        message.body.usage matches Some(usage) ==> {
            &&& prompt_sum(messages.push(message)) == prompt_sum(messages) + usage.prompt
            &&& completion_sum(messages.push(message)) == completion_sum(messages)
                + usage.completion
            &&& total_sum(messages.push(message)) == total_sum(messages) + usage.total
        },
        usage_fits(messages) <==> prompt_sum(messages) < 0x1_0000_0000 && completion_sum(messages)
            < 0x1_0000_0000 && total_sum(messages) < 0x1_0000_0000,
{
    assert(messages.push(message).drop_last() =~= messages);
}

/// Each side sees the messages that are visible to it, and each in order.
pub proof fn law_what_each_side_sees(messages: Seq<MessageView>, message: MessageView)
    ensures
        agent_view(Seq::empty()) == Seq::<MessageView>::empty(),
        user_view(Seq::empty()) == Seq::<MessageView>::empty(),
        agent_view(messages.push(message)) == if message.body.agent_visible {
            agent_view(messages).push(message)
        } else {
            agent_view(messages)
        },
        user_view(messages.push(message)) == if message.body.user_visible {
            user_view(messages).push(message)
        } else {
            user_view(messages)
        },
{
    messages.lemma_filter_push(message, |m: MessageView| m.body.agent_visible);
    messages.lemma_filter_push(message, |m: MessageView| m.body.user_visible);
    assert(agent_view(Seq::empty()) =~= Seq::<MessageView>::empty());
    assert(user_view(Seq::empty()) =~= Seq::<MessageView>::empty());
}

/// The conversation grows by each message that the model sees, but for those in the human's name
/// that the human does not see.
pub proof fn law_the_conversation_is_counted(messages: Seq<MessageView>, message: MessageView)
    ensures
        conversation_len(Seq::empty()) == 0,
        conversation_len(messages.push(message)) == conversation_len(messages) + if {
            &&& message.body.agent_visible
            &&& message.body.user_visible || message.body.role != Role::User
        } {
            1nat
        } else {
            0
        },
{
    let p = |m: MessageView| in_conversation(m);
    messages.lemma_filter_push(message, p);
    assert(Seq::<MessageView>::empty().filter(p) =~= Seq::empty());
}

/// A call has a result once a tool result bears its identifier, and only then.
pub proof fn law_results_answer_by_identifier(
    messages: Seq<MessageView>,
    message: MessageView,
    id: Seq<char>,
)
    ensures
        !answered(Seq::empty(), id),
        answered(messages.push(message), id) <==> answered(messages, id) || (message.body.role
            == Role::Tool && message.body.tool_call_id == Some(id)),
{
    let all = messages.push(message);
    let later = seq![message];
    assert(all =~= messages + later);
    if answered(messages, id) {
        law_results_stay(messages, later, id);
    } else if message.body.role == Role::Tool && message.body.tool_call_id == Some(id) {
        assert(all[messages.len() as int] == message);
    } else {
        assert forall|i: int| 0 <= i < all.len() implies !((#[trigger] all[i]).body.role
            == Role::Tool && all[i].body.tool_call_id == Some(id)) by {
            if i < messages.len() {
                assert(all[i] == messages[i]);
            }
        }
    }
}

/// A message that is no tool result adds the calls that it declares as the assistant and that have
/// no result; what waited waits on.
pub proof fn law_declared_calls_wait(messages: Seq<MessageView>, message: MessageView)
    requires
        message.body.role != Role::Tool,
    ensures
        pending_calls(Seq::empty()) == Seq::<ToolCallView>::empty(),
        message.body.role != Role::Assistant || message.body.tool_calls is None ==> pending_calls(
            messages.push(message),
        ) == pending_calls(messages),
        message.body.role == Role::Assistant ==> (message.body.tool_calls matches Some(calls)
            ==> pending_calls(messages.push(message)) == pending_calls(messages) + calls.filter(
            |c: ToolCallView| !answered(messages, c.id),
        )),
{
    let all = messages.push(message);
    let before = |c: ToolCallView| !answered(messages, c.id);
    let after = |c: ToolCallView| !answered(all, c.id);
    let declared = declared_calls(messages);
    let here = calls_of(message);
    assert(all.drop_last() =~= messages);
    assert forall|c: ToolCallView| #[trigger] before(c) == after(c) by {
        law_results_answer_by_identifier(messages, message, c.id);
    }
    lemma_same_filter(declared + here, before, after);
    Seq::filter_distributes_over_add(declared, here, before);
    assert(declared + Seq::<ToolCallView>::empty() =~= declared);
    assert(Seq::<ToolCallView>::empty().filter(before) =~= Seq::empty());
    assert(pending_calls(messages) + Seq::<ToolCallView>::empty() =~= pending_calls(messages));
    assert(declared_calls(Seq::empty()) =~= Seq::empty());
    assert(pending_calls(Seq::empty()) =~= Seq::<ToolCallView>::empty());
}

/// A tool result settles the calls under its identifier, and no others.
pub proof fn law_a_result_settles_its_calls(messages: Seq<MessageView>, message: MessageView)
    requires
        message.body.role == Role::Tool,
    ensures
        pending_calls(messages.push(message)) == pending_calls(messages).filter(
            |c: ToolCallView| message.body.tool_call_id != Some(c.id),
        ),
{
    let all = messages.push(message);
    let before = |c: ToolCallView| !answered(messages, c.id);
    let other = |c: ToolCallView| message.body.tool_call_id != Some(c.id);
    let after = |c: ToolCallView| !answered(all, c.id);
    let any = |c: ToolCallView| true;
    let declared = declared_calls(messages);
    assert(all.drop_last() =~= messages);
    assert(declared_calls(all) =~= declared);
    assert forall|c: ToolCallView|
        (#[trigger] before(c) && other(c)) <==> (after(c) && any(c)) by {
        law_results_answer_by_identifier(messages, message, c.id);
    }
    lemma_filters_meet(declared, before, other, after, any);
    lemma_all_stay(declared.filter(after), any);
}

/// A human is waited for behind a message of the assistant that neither side sees, and only there.
pub proof fn law_who_is_waited_for(messages: Seq<MessageView>, message: MessageView)
    ensures
        !awaiting(Seq::empty()),
        !answer_due(Seq::empty()),
        awaiting(messages.push(message)) <==> message.body.role == Role::Assistant
            && !message.body.user_visible && !message.body.agent_visible,
        awaiting(messages.push(message)) ==> answer_due(messages.push(message)),
        message.body.role != Role::Assistant || message.body.agent_visible
            || message.body.error_kind is Some && message.body.user_visible ==> !answer_due(
            messages.push(message),
        ),
{
}

/// An answer is due behind a notice for the human exactly where the notice reads as the question.
pub proof fn law_a_notice_is_a_question_by_its_wording(
    messages: Seq<MessageView>,
    message: MessageView,
)
    requires
        message.body.role == Role::Assistant,
        message.body.user_visible,
        !message.body.agent_visible,
        message.body.error_kind is None,
    ensures
        answer_due(messages.push(message)) <==> {
            &&& exists|rest: Seq<char>|
                message.body.content == #[trigger] (
                "⚠️  检测到高危操作，已暂停执行，等待你裁决：\n"@ + rest)
            &&& exists|rest: Seq<char>|
                message.body.content == #[trigger] (rest
                    + "\n输入 y 允许执行；其它任意输入均视为拒绝"@)
        },
{
    law_beginnings(
        message.body.content,
        "⚠️  检测到高危操作，已暂停执行，等待你裁决：\n"@,
    );
    law_endings(
        message.body.content,
        "\n输入 y 允许执行；其它任意输入均视为拒绝"@,
    );
}

/// The fault of a transcript is that of its last message.
pub proof fn law_the_last_message_tells_the_fault(
    messages: Seq<MessageView>,
    message: MessageView,
)
    ensures
        last_fault(Seq::empty()) is None,
        last_fault(messages.push(message)) == message.body.error_kind,
{
}

/// There is new evidence until a compaction leaves its mark, and again from the next report or
/// human turn on; nothing else changes that.
pub proof fn law_what_is_new_evidence(messages: Seq<MessageView>, message: MessageView)
    ensures
        new_evidence(Seq::empty()),
        message.body.role == Role::User && message.body.agent_visible && !message.body.user_visible
            ==> !new_evidence(messages.push(message)),
        !(message.body.role == Role::User && message.body.agent_visible
            && !message.body.user_visible) ==> (new_evidence(messages.push(message)) <==> {
            ||| message.body.usage is Some
            ||| message.body.role == Role::User && message.body.user_visible
            ||| new_evidence(messages)
        }),
{
    let all = messages.push(message);
    let n = messages.len() as int;
    assert(all[n] == message);
    assert(unmarked_from(Seq::<MessageView>::empty(), 0));
    if message.body.is_compaction_marker() {
        assert forall|k: int| 0 <= k <= n implies !unmarked_from(all, k) by {
            assert(all[n].body.is_compaction_marker());
        }
    } else {
        assert forall|k: int| 0 <= k <= n implies unmarked_from(all, k) == unmarked_from(
            messages,
            k,
        ) by {
            if unmarked_from(messages, k) {
                assert forall|j: int| k <= j < all.len() implies !(
                #[trigger] all[j]).body.is_compaction_marker() by {
                    if j < n {
                        assert(all[j] == messages[j]);
                    }
                }
            }
            if unmarked_from(all, k) {
                assert forall|j: int| k <= j < n implies !(
                #[trigger] messages[j]).body.is_compaction_marker() by {
                    assert(all[j] == messages[j]);
                }
            }
        }
        if is_new_fact(message) {
            assert(unmarked_from(all, n));
        } else {
            if new_evidence(messages) && !unmarked_from(messages, 0) {
                let k = choose|k: int|
                    0 <= k < n && is_new_fact(#[trigger] messages[k])
                        && unmarked_from(messages, k);
                assert(all[k] == messages[k]);
                assert(unmarked_from(all, k));
            }
            if new_evidence(all) && !unmarked_from(all, 0) {
                let k = choose|k: int|
                    0 <= k < all.len() && is_new_fact(#[trigger] all[k])
                        && unmarked_from(all, k);
                assert(all[k] == messages[k]);
                assert(unmarked_from(messages, k));
            }
        }
    }
}

/// Calls that are declared start the matter anew; behind them an answer from the human that the
/// model does not see decides; everything else decides nothing.
pub proof fn law_how_the_human_decides(messages: Seq<MessageView>, message: MessageView)
    ensures
        decision(Seq::empty()) is None,
        message.body.tool_calls is Some ==> decision(messages.push(message)) is None,
        message.body.tool_calls is None && (message.body.role != Role::User
            || message.body.agent_visible) ==> decision(messages.push(message)) == decision(
            messages,
        ),
        message.body.tool_calls is None && message.body.role == Role::User
            && !message.body.agent_visible ==> decision(messages.push(message)) == if exists|i: int|
            0 <= i < messages.len() && (#[trigger] messages[i]).body.tool_calls is Some {
            Some(allows(message.body.content))
        } else {
            None
        },
{
    let all = messages.push(message);
    let n = messages.len() as int;
    let carries = |i: int| carries_calls(messages[i]);
    let carries_all = |i: int| carries_calls(all[i]);
    assert(all[n] == message);
    assert forall|i: int| 0 <= i <= n - 1 implies #[trigger] carries(i) == carries_all(i) by {
        assert(all[i] == messages[i]);
    }
    lemma_same_search(0, n - 1, carries, carries_all);
    lemma_last_in(0, n - 1, carries);
    if carries_all(n) {
        assert(last_in(0, n, carries_all) == Some(n));
        assert(last_in(n + 1, n, |i: int| is_answer(all[i])) is None);
    } else {
        assert(last_in(0, n, carries_all) == last_in(0, n - 1, carries_all));
        match last_in(0, n - 1, carries) {
            Some(request) => {
                let answers = |i: int| is_answer(messages[i]);
                let answers_all = |i: int| is_answer(all[i]);
                assert forall|i: int| request + 1 <= i <= n - 1 implies #[trigger] answers(i)
                    == answers_all(i) by {
                    assert(all[i] == messages[i]);
                }
                lemma_same_search(request + 1, n - 1, answers, answers_all);
                lemma_last_in(request + 1, n - 1, answers);
                assert(messages[request].body.tool_calls is Some);
                if answers_all(n) {
                    assert(last_in(request + 1, n, answers_all) == Some(n));
                } else {
                    assert(last_in(request + 1, n, answers_all) == last_in(
                        request + 1,
                        n - 1,
                        answers_all,
                    ));
                }
            },
            None => {
                assert forall|i: int| 0 <= i < n implies (
                #[trigger] messages[i]).body.tool_calls is None by {
                    assert(!carries(i));
                }
            },
        }
    }
}

/// Calls that the assistant declares are to run, all of them, whatever stood before.
pub proof fn law_declared_calls_are_to_run(
    messages: Seq<MessageView>,
    message: MessageView,
    calls: Seq<ToolCallView>,
)
    requires
        message.body.role == Role::Assistant,
        message.body.tool_calls == Some(calls),
        calls.len() > 0,
    ensures
        calls_to_run(messages.push(message)) == Some(calls),
{
    let nothing = Seq::<MessageView>::empty();
    lemma_new_calls_run(messages, message, nothing, calls);
    assert(messages.push(message) + nothing =~= messages.push(message));
}

/// Words that the model sees end the matter: nothing is to run behind them.
pub proof fn law_words_leave_nothing_to_run(messages: Seq<MessageView>, message: MessageView)
    requires
        message.body.agent_visible,
        message.body.role != Role::Tool,
        message.body.role != Role::Assistant || message.body.tool_calls is None || (
        message.body.tool_calls->0).len() == 0,
    ensures
        calls_to_run(Seq::empty()) is None,
        calls_to_run(messages.push(message)) is None,
{
    let all = messages.push(message);
    let n = messages.len() as int;
    let declares = |i: int| calls_of(all[i]).len() > 0;
    assert(all[n] == message);
    lemma_last_in(0, n, declares);
    assert(!declares(n));
    if let Some(at) = last_in(0, n, declares) {
        assert(!only_results_between(all, at, n + 1));
    }
}

/// A tool result takes the calls under its identifier off those to run, and leaves the others.
pub proof fn law_a_result_takes_its_calls_off(messages: Seq<MessageView>, message: MessageView)
    requires
        message.body.role == Role::Tool,
    ensures
        calls_to_run(messages) is None ==> calls_to_run(messages.push(message)) is None,
        calls_to_run(messages) matches Some(calls) ==> ({
            let left = calls.filter(|c: ToolCallView| message.body.tool_call_id != Some(c.id));
            calls_to_run(messages.push(message)) == if left.len() == 0 {
                None
            } else {
                Some(left)
            }
        }),
{
    let all = messages.push(message);
    let later = seq![message];
    assert(all =~= messages + later);
    lemma_quiet_messages_keep_the_request(messages, later);
    if let Some(at) = request_at(messages) {
        let rest = messages.skip(at + 1);
        let up = calls_of(messages[at]);
        let before = |c: ToolCallView| !answered(rest, c.id);
        let other = |c: ToolCallView| message.body.tool_call_id != Some(c.id);
        let after = |c: ToolCallView| !answered(all.skip(at + 1), c.id);
        let any = |c: ToolCallView| true;
        assert(all[at] == messages[at]);
        assert(all.skip(at + 1) =~= rest.push(message));
        assert forall|c: ToolCallView|
            (#[trigger] before(c) && other(c)) <==> (after(c) && any(c)) by {
            law_results_answer_by_identifier(rest, message, c.id);
        }
        lemma_filters_meet(up, before, other, after, any);
        lemma_all_stay(up.filter(after), any);
        assert(up.filter(before).len() == 0 ==> up.filter(before).filter(other) =~= Seq::empty());
    }
}

/// The messages that the library writes, field by field.
pub proof fn law_messages_field_by_field(
    role: Role,
    content: Seq<char>,
    user: bool,
    agent: bool,
    id: Seq<char>,
    kind: ErrorKind,
)
    ensures
        ({
            let plain = plain_body(role, content, user, agent);
            &&& plain.role == role
            &&& plain.content == content
            &&& plain.user_visible == user
            &&& plain.agent_visible == agent
            &&& plain.tool_calls is None
            &&& plain.tool_call_id is None
            &&& plain.usage is None
            &&& plain.error_kind is None
        }),
        ({
            let result = tool_response_body(id, content);
            &&& result.role == Role::Tool
            &&& result.content == content
            &&& result.tool_call_id == Some(id)
            &&& result.user_visible && result.agent_visible
            &&& result.tool_calls is None && result.usage is None && result.error_kind is None
        }),
        ({
            let fault = error_body(kind, content);
            &&& fault.role == Role::Assistant
            &&& fault.content == content
            &&& fault.error_kind == Some(kind)
            &&& fault.user_visible && !fault.agent_visible
            &&& fault.tool_calls is None && fault.tool_call_id is None && fault.usage is None
        }),
{
}

/// The mark of a compaction is for the model alone, and tells how many messages went: no two
/// numbers have the same mark.
pub proof fn law_the_mark_tells_how_many_went(a: nat, b: nat)
    ensures
        marker_body(a).role == Role::User,
        marker_body(a).agent_visible && !marker_body(a).user_visible,
        marker_body(a).tool_calls is None && marker_body(a).tool_call_id is None,
        marker_body(a).usage is None && marker_body(a).error_kind is None,
        marker_body(a).content == "（系统提示：为腾出上下文，更早的 "@ + decimal(a)
            + " 条对话已从上下文中移除，你看不到其内容了。如需细节，请重新读取相关文件，或向人类确认。）"@,
        marker_body(a).content == marker_body(b).content ==> a == b,
{
    let before = "（系统提示：为腾出上下文，更早的 "@;
    let after =
        " 条对话已从上下文中移除，你看不到其内容了。如需细节，请重新读取相关文件，或向人类确认。）"@;
    let x = marker_body(a).content;
    let y = marker_body(b).content;
    assert(x == before + decimal(a) + after);
    assert(y == before + decimal(b) + after);
    if x == y {
        let n = before.len() as int;
        assert(decimal(a).len() == decimal(b).len());
        assert(x.subrange(n, n + decimal(a).len()) =~= decimal(a));
        assert(y.subrange(n, n + decimal(b).len()) =~= decimal(b));
        law_decimal_is_unique(a, b);
    }
}

/// A human turn is what the human typed and sees; a mark is what stands in the human's name and
/// only the model sees.
pub proof fn law_turns_and_marks(body: BodyView)
    ensures
        body.is_human_turn() <==> body.role == Role::User && body.user_visible,
        body.is_compaction_marker() <==> body.role == Role::User && !body.user_visible
            && body.agent_visible,
        !(body.is_human_turn() && body.is_compaction_marker()),
{
}

/// How round trips are read, one message after the other: what the model does not see changes
/// nothing; a result has to be that of a call that waits, and settles it; anything else may only
/// come when no call waits, and from then on the calls that it declares do.
pub proof fn law_how_round_trips_are_read(
    messages: Seq<MessageView>,
    message: MessageView,
    id: Seq<char>,
)
    ensures
        pairing_after(Seq::empty()) == Some(Set::<Seq<char>>::empty()),
        pairing_ok(messages) <==> (pairing_after(messages) matches Some(waiting) && waiting
            =~= Set::empty()),
        pairing_after(messages) is None ==> pairing_after(messages.push(message)) is None,
        !message.body.agent_visible ==> pairing_after(messages.push(message)) == pairing_after(
            messages,
        ),
        pairing_after(messages) matches Some(waiting) ==> {
            &&& message.body.agent_visible && message.body.role == Role::Tool ==> {
                &&& message.body.tool_call_id is None ==> pairing_after(messages.push(message))
                    is None
                &&& message.body.tool_call_id == Some(id) && !waiting.contains(id)
                    ==> pairing_after(messages.push(message)) is None
                &&& message.body.tool_call_id == Some(id) && waiting.contains(id)
                    ==> pairing_after(messages.push(message)) == Some(waiting.remove(id))
            }
            &&& message.body.agent_visible && message.body.role != Role::Tool ==> {
                &&& waiting.contains(id) ==> pairing_after(messages.push(message)) is None
                &&& waiting =~= Set::empty() ==> pairing_after(messages.push(message)) is Some && (
                (pairing_after(messages.push(message))->0).contains(id) <==> {
                    &&& message.body.tool_calls is Some
                    &&& exists|k: int|
                        0 <= k < (message.body.tool_calls->0).len() && (
                        #[trigger] message.body.tool_calls->0[k]).id == id
                })
            }
        },
{
    assert(messages.push(message).drop_last() =~= messages);
    if let Some(calls) = message.body.tool_calls {
        let names = calls.map_values(|c: ToolCallView| c.id);
        if names.contains(id) {
            let k = choose|k: int| 0 <= k < names.len() && names[k] == id;
            assert(calls[k].id == id);
        }
        if exists|k: int| 0 <= k < calls.len() && (#[trigger] calls[k]).id == id {
            let k = choose|k: int| 0 <= k < calls.len() && (#[trigger] calls[k]).id == id;
            assert(names[k] == id);
        }
        assert(declared_ids(calls).contains(id) <==> names.contains(id));
    }
}

} // verus!
