//! What approval guarantees.

use crate::cli::input_body;
use crate::engine::apply_effects;
use crate::filter::{
    lemma_filter_keeps, lemma_filter_source, lemma_none_left, lemma_same_filter,
};
use crate::laws::rendering::law_the_question_holds_every_call_whole;
use crate::laws::transcript::{
    appended, law_hidden_messages_change_no_calls_to_run, law_history_only_grows,
    law_results_settle_calls, law_results_stay, law_views_are_independent, lemma_new_calls_run,
    lemma_quiet_messages_keep_the_request, lemma_still_unanswered, only_appends,
};
use crate::message::{
    agent_view, answer_due, answered, calls_of, declared_calls, pending_calls, plain_body,
    question_head, question_tail, tool_response_body, MessageView, Role, ToolCallView,
};
use crate::operations::tool_approval::{
    allows, asks, carries_calls, decision, default_patterns, gated, is_answer, refusal, refuses,
    risky, risky_calls, waiting_calls,
};
use crate::operations::tool_exec::{calls_to_run, request_at};
use crate::pipeline::{EffectView, StepView};
use crate::render::approval_text;
use crate::search::{last_in, lemma_last_in, lemma_same_search};
use crate::text::{has_substring, lower, trimmed};
use vstd::prelude::*;

verus! {

/// A risky call never passes unless the human allowed it: the turn goes to the human, or the call
/// is refused.
pub proof fn law_risky_calls_pass_only_with_consent(
    result: Option<StepView>,
    patterns: Seq<Seq<char>>,
    messages: Seq<MessageView>,
)
    requires
        gated(result, patterns, messages),
        risky_calls(patterns, messages).len() > 0,
    ensures
        result is None <==> decision(messages) == Some(true),
        result matches Some(step) ==> step.yield_turn == (decision(messages) is None),
{
}

/// The calls that wait are those without a result, as long as no call to run has an identifier that
/// an earlier result bears.
pub proof fn law_waiting_calls_have_no_result(messages: Seq<MessageView>)
    requires
        calls_to_run(messages) matches Some(calls) ==> forall|i: int|
            0 <= i < calls.len() ==> !answered(messages, (#[trigger] calls[i]).id),
    ensures
        waiting_calls(messages) == pending_calls(messages),
{
    if let Some(calls) = calls_to_run(messages) {
        lemma_none_left(calls, |c: ToolCallView| answered(messages, c.id));
    }
    assert(pending_calls(messages) + Seq::<ToolCallView>::empty() =~= pending_calls(messages));
}

/// Safe calls pass.
pub proof fn law_safe_calls_pass(
    result: Option<StepView>,
    patterns: Seq<Seq<char>>,
    messages: Seq<MessageView>,
)
    requires
        gated(result, patterns, messages),
        forall|n: int|
            0 <= n < waiting_calls(messages).len() ==> !risky(
                patterns,
                #[trigger] waiting_calls(messages)[n],
            ),
    ensures
        result is None,
{
    let p = |c: ToolCallView| risky(patterns, c);
    let calls = risky_calls(patterns, messages);
    if calls.len() > 0 {
        waiting_calls(messages).lemma_filter_pred(p, 0);
        lemma_filter_source(waiting_calls(messages), p, 0);
    }
}

/// The human's answer behind the calls decides, the last one where there are several: anything
/// but a word of consent refuses.
pub proof fn law_the_last_answer_decides(messages: Seq<MessageView>, answer: MessageView)
    requires
        exists|i: int| 0 <= i < messages.len() && carries_calls(#[trigger] messages[i]),
        is_answer(answer),
        answer.body.tool_calls is None,
    ensures
        decision(messages.push(answer)) == Some(allows(answer.body.content)),
{
    let all = messages.push(answer);
    let n = messages.len() as int;
    let p = |i: int| carries_calls(all[i]);
    lemma_last_in(0, n, p);
    let i = choose|i: int| 0 <= i < messages.len() && carries_calls(#[trigger] messages[i]);
    assert(all[i] == messages[i]);
    assert(p(i));
    assert(!p(n));
    assert(last_in(0, all.len() - 1, |i: int| carries_calls(all[i])) is Some);
    let request = last_in(0, all.len() - 1, |i: int| carries_calls(all[i]))->0;
    assert(request < n);
    let q = |i: int| is_answer(all[i]);
    assert(q(n));
    assert(last_in(request + 1, n, q) == Some(n));
}

/// A call of one of the messages is among the declared ones.
proof fn lemma_declared(messages: Seq<MessageView>, j: int, m: int)
    requires
        0 <= j < messages.len(),
        0 <= m < calls_of(messages[j]).len(),
    ensures
        declared_calls(messages).contains(calls_of(messages[j])[m]),
    decreases messages.len(),
{
    let rest = messages.drop_last();
    let earlier = declared_calls(rest);
    let all = declared_calls(messages);
    if j < rest.len() {
        lemma_declared(rest, j, m);
        let n = choose|n: int| 0 <= n < earlier.len() && earlier[n] == calls_of(rest[j])[m];
        assert(all[n] == calls_of(messages[j])[m]);
    } else {
        assert(all[earlier.len() + m] == calls_of(messages[j])[m]);
    }
}

/// A call to run has no result behind it, and it is among those that approval looks at.
proof fn lemma_calls_to_run_wait(messages: Seq<MessageView>, i: int)
    requires
        calls_to_run(messages) matches Some(calls) && 0 <= i < calls.len(),
    ensures
        0 <= request_at(messages)->0 < messages.len(),
        !answered(
            messages.skip(request_at(messages)->0 + 1),
            (calls_to_run(messages)->0)[i].id,
        ),
        waiting_calls(messages).contains((calls_to_run(messages)->0)[i]),
{
    let at = request_at(messages)->0;
    let unsettled = |c: ToolCallView| !answered(messages.skip(at + 1), c.id);
    let pends = |c: ToolCallView| !answered(messages, c.id);
    let reused = |c: ToolCallView| answered(messages, c.id);
    let up = calls_of(messages[at]);
    let left = up.filter(unsettled);
    let call = left[i];
    let pending = pending_calls(messages);
    let waiting = waiting_calls(messages);
    lemma_last_in(0, messages.len() - 1, |i: int| calls_of(messages[i]).len() > 0);
    up.lemma_filter_pred(unsettled, i);
    lemma_filter_source(up, unsettled, i);
    if pends(call) {
        let m = choose|m: int| 0 <= m < up.len() && #[trigger] up[m] == call;
        lemma_declared(messages, at, m);
        let declared = declared_calls(messages);
        let n = choose|n: int| 0 <= n < declared.len() && declared[n] == call;
        lemma_filter_keeps(declared, pends, n);
        let k = choose|k: int| 0 <= k < pending.len() && pending[k] == call;
        assert(waiting[k] == call);
    } else {
        lemma_filter_keeps(left, reused, i);
        let k = choose|k: int| 0 <= k < left.filter(reused).len() && left.filter(reused)[k] == call;
        assert(waiting[pending.len() + k] == call);
    }
}

/// No risky call runs unasked: where approval lets a transcript pass and one of the calls to run
/// is risky, the human allowed it.
pub proof fn law_no_risky_call_runs_unasked(
    patterns: Seq<Seq<char>>,
    messages: Seq<MessageView>,
    i: int,
)
    requires
        gated(None, patterns, messages),
        calls_to_run(messages) matches Some(calls) && 0 <= i < calls.len() && risky(
            patterns,
            calls[i],
        ),
    ensures
        !answered(
            messages.skip(request_at(messages)->0 + 1),
            (calls_to_run(messages)->0)[i].id,
        ),
        decision(messages) == Some(true),
{
    let call = (calls_to_run(messages)->0)[i];
    let waiting = waiting_calls(messages);
    lemma_calls_to_run_wait(messages, i);
    let k = choose|k: int| 0 <= k < waiting.len() && waiting[k] == call;
    lemma_filter_keeps(waiting, |c: ToolCallView| risky(patterns, c), k);
}

/// The transcript with the question behind it.
proof fn lemma_asked(
    effects: Seq<EffectView>,
    calls: Seq<ToolCallView>,
    messages: Seq<MessageView>,
) -> (question: MessageView)
    requires
        asks(effects, calls),
    ensures
        question.body == plain_body(Role::Assistant, approval_text(calls), true, false),
        apply_effects(messages, effects) == messages.push(question),
        answer_due(messages.push(question)),
{
    let question = effects[0]->AppendMessage_0;
    let text = approval_text(calls);
    assert(effects.drop_last() =~= Seq::empty());
    assert(apply_effects(messages, effects.drop_last()) == messages);
    assert(text.take(question_head().len() as int) =~= question_head());
    assert(text.skip(text.len() - question_tail().len()) =~= question_tail());
    question
}

/// A message that carries no calls and answers nothing decides nothing.
proof fn lemma_decides_nothing(messages: Seq<MessageView>, message: MessageView)
    requires
        message.body.tool_calls is None,
        !is_answer(message),
    ensures
        decision(messages.push(message)) == decision(messages),
{
    let all = messages.push(message);
    let n = messages.len() as int;
    let carries = |i: int| carries_calls(messages[i]);
    let carries_all = |i: int| carries_calls(all[i]);
    assert forall|i: int| 0 <= i <= n - 1 implies #[trigger] carries(i) == carries_all(i) by {
        assert(all[i] == messages[i]);
    }
    lemma_same_search(0, n - 1, carries, carries_all);
    assert(!carries_all(n));
    assert(last_in(0, n, carries_all) == last_in(0, n - 1, carries_all));
    lemma_last_in(0, n - 1, carries);
    if let Some(request) = last_in(0, n - 1, carries) {
        let answers = |i: int| is_answer(messages[i]);
        let answers_all = |i: int| is_answer(all[i]);
        assert forall|i: int| request + 1 <= i <= n - 1 implies #[trigger] answers(i)
            == answers_all(i) by {
            assert(all[i] == messages[i]);
        }
        lemma_same_search(request + 1, n - 1, answers, answers_all);
        lemma_last_in(request + 1, n - 1, answers);
        assert(!answers_all(n));
        assert(last_in(request + 1, n, answers_all) == last_in(request + 1, n - 1, answers_all));
    }
}

/// A message without calls that is no tool result, and that the model does not see, leaves the same
/// calls waiting.
proof fn lemma_same_calls_wait(messages: Seq<MessageView>, message: MessageView)
    requires
        message.body.tool_calls is None,
        message.body.role != Role::Tool,
        !message.body.agent_visible,
    ensures
        waiting_calls(messages.push(message)) == waiting_calls(messages),
{
    let all = messages.push(message);
    let declared = declared_calls(messages);
    let before = |c: ToolCallView| !answered(messages, c.id);
    let after = |c: ToolCallView| !answered(all, c.id);
    assert(all.drop_last() =~= messages);
    assert(declared_calls(all) =~= declared);
    assert(all =~= messages + seq![message]);
    assert forall|i: int| 0 <= i < declared.len() implies before(#[trigger] declared[i]) == after(
        declared[i],
    ) by {
        if before(declared[i]) {
            lemma_still_unanswered(messages, seq![message], declared[i].id);
        } else {
            law_results_stay(messages, seq![message], declared[i].id);
        }
    }
    lemma_same_filter(declared, before, after);
    law_hidden_messages_change_no_calls_to_run(messages, message);
    if let Some(calls) = calls_to_run(messages) {
        assert forall|i: int| 0 <= i < calls.len() implies answered(
            messages,
            (#[trigger] calls[i]).id,
        ) == answered(all, calls[i].id) by {
            if answered(messages, calls[i].id) {
                law_results_stay(messages, seq![message], calls[i].id);
            } else {
                lemma_still_unanswered(messages, seq![message], calls[i].id);
            }
        }
        lemma_same_filter(
            calls,
            |c: ToolCallView| answered(messages, c.id),
            |c: ToolCallView| answered(all, c.id),
        );
    }
}

/// The question is put once: evaluated again behind its own question, the operation stays
/// suspended and appends nothing.
pub proof fn law_the_question_is_put_once(
    effects: Seq<EffectView>,
    patterns: Seq<Seq<char>>,
    messages: Seq<MessageView>,
    result: Option<StepView>,
)
    requires
        risky_calls(patterns, messages).len() > 0,
        decision(messages) is None,
        asks(effects, risky_calls(patterns, messages)),
        gated(result, patterns, apply_effects(messages, effects)),
    ensures
        answer_due(apply_effects(messages, effects)),
        result matches Some(step) && step.yield_turn && step.effects.len() == 0,
{
    let question = lemma_asked(effects, risky_calls(patterns, messages), messages);
    lemma_decides_nothing(messages, question);
    lemma_same_calls_wait(messages, question);
}

/// What the human types behind the question is the answer to it, hidden from the model, and it
/// decides on the calls.
pub proof fn law_the_next_input_is_the_answer(
    effects: Seq<EffectView>,
    calls: Seq<ToolCallView>,
    messages: Seq<MessageView>,
    line: Seq<char>,
    input: MessageView,
)
    requires
        asks(effects, calls),
        exists|i: int| 0 <= i < messages.len() && carries_calls(#[trigger] messages[i]),
        input.body == input_body(apply_effects(messages, effects), line),
    ensures
        is_answer(input),
        decision(apply_effects(messages, effects).push(input)) == Some(allows(trimmed(line))),
{
    let question = lemma_asked(effects, calls, messages);
    let asked = messages.push(question);
    let i = choose|i: int| 0 <= i < messages.len() && carries_calls(#[trigger] messages[i]);
    assert(asked[i] == messages[i]);
    law_the_last_answer_decides(asked, input);
}

/// Allowed calls run: once the human consents to the question about them, approval lets them pass,
/// and they are the calls to run, the safe ones among them too.
pub proof fn law_allowed_calls_run(
    patterns: Seq<Seq<char>>,
    messages: Seq<MessageView>,
    request: MessageView,
    calls: Seq<ToolCallView>,
    effects: Seq<EffectView>,
    line: Seq<char>,
    input: MessageView,
    result: Option<StepView>,
)
    requires
        request.body.role == Role::Assistant,
        request.body.tool_calls == Some(calls),
        calls.len() > 0,
        asks(effects, risky_calls(patterns, messages.push(request))),
        input.body == input_body(apply_effects(messages.push(request), effects), line),
        allows(trimmed(line)),
        gated(result, patterns, apply_effects(messages.push(request), effects).push(input)),
    ensures
        result is None,
        calls_to_run(apply_effects(messages.push(request), effects).push(input)) == Some(calls),
{
    let declared = messages.push(request);
    let question = lemma_asked(effects, risky_calls(patterns, declared), declared);
    let behind = seq![question, input];
    let all = declared.push(question).push(input);
    assert(declared[messages.len() as int] == request);
    assert(carries_calls(declared[messages.len() as int]));
    law_the_next_input_is_the_answer(
        effects,
        risky_calls(patterns, declared),
        declared,
        line,
        input,
    );
    assert(all =~= declared + behind);
    lemma_new_calls_run(messages, request, behind, calls);
}

/// The refusals settle the refused calls: nothing risky waits behind them, so the pipeline goes
/// on, and the question is not put again.
pub proof fn law_refused_calls_are_settled(
    effects: Seq<EffectView>,
    patterns: Seq<Seq<char>>,
    messages: Seq<MessageView>,
    result: Option<StepView>,
)
    requires
        refuses(effects, risky_calls(patterns, messages)),
        gated(result, patterns, apply_effects(messages, effects)),
    ensures
        risky_calls(patterns, apply_effects(messages, effects)).len() == 0,
        result is None,
{
    let calls = risky_calls(patterns, messages);
    let results = appended(effects);
    let after = apply_effects(messages, effects);
    let p = |c: ToolCallView| risky(patterns, c);
    assert(only_appends(effects));
    law_history_only_grows(messages, effects);
    assert forall|i: int| 0 <= i < results.len() implies (
    #[trigger] results[i]).body == tool_response_body(calls[i].id, refusal()) by {
        assert(effects[i] is AppendMessage);
    }
    if risky_calls(patterns, after).len() > 0 {
        let left = waiting_calls(after);
        let waited = waiting_calls(messages);
        left.lemma_filter_pred(p, 0);
        lemma_filter_source(left, p, 0);
        let n = choose|n: int| 0 <= n < left.len() && #[trigger] left[n] == left.filter(p)[0];
        let call = left[n];
        lemma_still_waiting(messages, results, n);
        let k = choose|k: int| 0 <= k < waited.len() && waited[k] == call;
        lemma_filter_keeps(waited, p, k);
        let i = choose|i: int| 0 <= i < calls.len() && calls[i] == call;
        assert(results[i].body.tool_call_id == Some(call.id));
    }
}

/// What waits behind tool results waited before them, and none of them is its own.
proof fn lemma_still_waiting(messages: Seq<MessageView>, results: Seq<MessageView>, n: int)
    requires
        forall|i: int| 0 <= i < results.len() ==> (#[trigger] results[i]).body.role == Role::Tool,
        0 <= n < waiting_calls(messages + results).len(),
    ensures
        waiting_calls(messages).contains(waiting_calls(messages + results)[n]),
        forall|i: int|
            0 <= i < results.len() ==> (#[trigger] results[i]).body.tool_call_id != Some(
                waiting_calls(messages + results)[n].id,
            ),
{
    let after = messages + results;
    let pending = pending_calls(messages);
    let waiting = waiting_calls(messages);
    let call = waiting_calls(after)[n];
    if n < pending_calls(after).len() {
        law_results_settle_calls(messages, results, n);
        let k = choose|k: int| 0 <= k < pending.len() && pending[k] == call;
        assert(waiting[k] == call);
    } else {
        let at = request_at(after)->0;
        let up = calls_of(after[at]);
        let rest = messages.skip(at + 1);
        let unsettled = |c: ToolCallView| !answered(rest, c.id);
        let unsettled_after = |c: ToolCallView| !answered(after.skip(at + 1), c.id);
        let reused = |c: ToolCallView| answered(after, c.id);
        lemma_quiet_messages_keep_the_request(messages, results);
        assert(after[at] == messages[at]);
        assert(after.skip(at + 1) =~= rest + results);
        let left = up.filter(unsettled_after);
        let m = n - pending_calls(after).len();
        lemma_filter_source(left, reused, m);
        let i = choose|i: int| 0 <= i < left.len() && #[trigger] left[i] == call;
        up.lemma_filter_pred(unsettled_after, i);
        lemma_filter_source(up, unsettled_after, i);
        let u = choose|u: int| 0 <= u < up.len() && #[trigger] up[u] == call;
        if answered(rest, call.id) {
            law_results_stay(rest, results, call.id);
        }
        lemma_filter_keeps(up, unsettled, u);
        let k = choose|k: int| 0 <= k < up.filter(unsettled).len() && up.filter(unsettled)[k]
            == call;
        lemma_calls_to_run_wait(messages, k);
        assert forall|i: int| 0 <= i < results.len() implies (
        #[trigger] results[i]).body.tool_call_id != Some(call.id) by {
            assert((rest + results)[rest.len() + i] == results[i]);
        }
    }
}

/// Refusing the risky calls of a batch leaves the safe ones to run.
pub proof fn law_safe_calls_of_a_refused_batch_run(
    effects: Seq<EffectView>,
    patterns: Seq<Seq<char>>,
    messages: Seq<MessageView>,
    i: int,
)
    requires
        refuses(effects, risky_calls(patterns, messages)),
        calls_to_run(messages) matches Some(calls) && 0 <= i < calls.len() && forall|n: int|
            0 <= n < risky_calls(patterns, messages).len() ==> (#[trigger] risky_calls(
                patterns,
                messages,
            )[n]).id != calls[i].id,
    ensures
        calls_to_run(apply_effects(messages, effects)) matches Some(left) && left.contains(
            (calls_to_run(messages)->0)[i],
        ),
{
    let refused = risky_calls(patterns, messages);
    let results = appended(effects);
    let after = messages + results;
    let call = (calls_to_run(messages)->0)[i];
    let at = request_at(messages)->0;
    let up = calls_of(messages[at]);
    let rest = messages.skip(at + 1);
    let unsettled = |c: ToolCallView| !answered(rest, c.id);
    let unsettled_after = |c: ToolCallView| !answered(after.skip(at + 1), c.id);
    assert(only_appends(effects));
    law_history_only_grows(messages, effects);
    assert forall|n: int| 0 <= n < results.len() implies (
    #[trigger] results[n]).body == tool_response_body(refused[n].id, refusal()) by {
        assert(effects[n] is AppendMessage);
    }
    lemma_quiet_messages_keep_the_request(messages, results);
    assert(after[at] == messages[at]);
    lemma_calls_to_run_wait(messages, i);
    assert(after.skip(at + 1) =~= rest + results);
    assert forall|k: int| 0 <= k < (rest + results).len() implies !((
    #[trigger] (rest + results)[k]).body.role == Role::Tool && (rest + results)[k].body.tool_call_id
        == Some(call.id)) by {
        if k < rest.len() {
            assert((rest + results)[k] == rest[k]);
        } else {
            assert((rest + results)[k] == results[k - rest.len()]);
            assert(refused[k - rest.len()].id != call.id);
        }
    }
    lemma_filter_source(up, unsettled, i);
    let m = choose|m: int| 0 <= m < up.len() && #[trigger] up[m] == call;
    lemma_filter_keeps(up, unsettled_after, m);
}

/// The model never learns that the human was asked: neither the question nor the answer is in its
/// view.
pub proof fn law_the_model_never_sees_the_question(
    effects: Seq<EffectView>,
    calls: Seq<ToolCallView>,
    messages: Seq<MessageView>,
    answer: MessageView,
)
    requires
        asks(effects, calls),
        is_answer(answer),
    ensures
        agent_view(apply_effects(messages, effects)) == agent_view(messages),
        agent_view(messages.push(answer)) == agent_view(messages),
{
    let question = effects[0]->AppendMessage_0;
    assert(effects.drop_last() =~= Seq::empty());
    assert(apply_effects(messages, effects.drop_last()) == messages);
    assert(apply_effects(messages, effects) == messages.push(question));
    law_views_are_independent(messages, question);
    law_views_are_independent(messages, answer);
}

/// While the question or a record of it is the last message and the human has not answered, the
/// operation waits and asks nothing again.
pub proof fn law_an_open_question_is_not_repeated(
    result: Option<StepView>,
    patterns: Seq<Seq<char>>,
    messages: Seq<MessageView>,
)
    requires
        gated(result, patterns, messages),
        risky_calls(patterns, messages).len() > 0,
        decision(messages) is None,
        answer_due(messages),
    ensures
        result matches Some(step) && step.yield_turn && step.effects.len() == 0,
{
}

/// A call is risky by one of the configured marks, anywhere in its arguments and letter for letter;
/// without marks no call is, and another mark makes no risky call safe.
pub proof fn law_what_is_risky(patterns: Seq<Seq<char>>, pattern: Seq<char>, call: ToolCallView)
    ensures
        !risky(Seq::empty(), call),
        risky(patterns.push(pattern), call) <==> risky(patterns, call) || has_substring(
            call.arguments,
            pattern,
        ),
{
    let all = patterns.push(pattern);
    assert(all[patterns.len() as int] == pattern);
    if risky(patterns, call) {
        let i = choose|i: int|
            0 <= i < patterns.len() && has_substring(call.arguments, #[trigger] patterns[i]);
        assert(all[i] == patterns[i]);
    }
    if risky(all, call) && !has_substring(call.arguments, pattern) {
        let i = choose|i: int|
            0 <= i < all.len() && has_substring(call.arguments, #[trigger] all[i]);
        assert(all[i] == patterns[i]);
    }
}

/// The commands that are risky where nothing else is configured.
pub proof fn law_the_usual_marks(call: ToolCallView)
    ensures
        risky(default_patterns(), call) <==> {
            ||| has_substring(call.arguments, "rm -rf"@)
            ||| has_substring(call.arguments, "rm -fr"@)
            ||| has_substring(call.arguments, "mkfs"@)
            ||| has_substring(call.arguments, "dd if="@)
            ||| has_substring(call.arguments, "shutdown"@)
            ||| has_substring(call.arguments, "reboot"@)
            ||| has_substring(call.arguments, "poweroff"@)
            ||| has_substring(call.arguments, ":(){"@)
            ||| has_substring(call.arguments, "chmod 777 /"@)
            ||| has_substring(call.arguments, "> /dev/sd"@)
            ||| has_substring(call.arguments, "sudo "@)
            ||| has_substring(call.arguments, "curl | sh"@)
            ||| has_substring(call.arguments, "wget | sh"@)
        },
{
    let marks = default_patterns();
    assert(marks.len() == 13);
    assert(marks[0] == "rm -rf"@);
    assert(marks[1] == "rm -fr"@);
    assert(marks[2] == "mkfs"@);
    assert(marks[3] == "dd if="@);
    assert(marks[4] == "shutdown"@);
    assert(marks[5] == "reboot"@);
    assert(marks[6] == "poweroff"@);
    assert(marks[7] == ":(){"@);
    assert(marks[8] == "chmod 777 /"@);
    assert(marks[9] == "> /dev/sd"@);
    assert(marks[10] == "sudo "@);
    assert(marks[11] == "curl | sh"@);
    assert(marks[12] == "wget | sh"@);
}

/// Five words consent, in any case of their ASCII letters and with white space around them; every
/// other answer refuses.
pub proof fn law_words_of_consent(answer: Seq<char>)
    ensures
        lower(trimmed(answer)) == "y"@ ==> allows(answer),
        lower(trimmed(answer)) == "yes"@ ==> allows(answer),
        lower(trimmed(answer)) == "是"@ ==> allows(answer),
        lower(trimmed(answer)) == "允许"@ ==> allows(answer),
        lower(trimmed(answer)) == "ok"@ ==> allows(answer),
        allows(answer) ==> {
            ||| lower(trimmed(answer)) == "y"@
            ||| lower(trimmed(answer)) == "yes"@
            ||| lower(trimmed(answer)) == "是"@
            ||| lower(trimmed(answer)) == "允许"@
            ||| lower(trimmed(answer)) == "ok"@
        },
{
}

/// Approval looks at every call without a result and at every call to run, at each once, and at
/// nothing else.
pub proof fn law_every_waiting_call_is_looked_at(messages: Seq<MessageView>, call: ToolCallView)
    ensures
        pending_calls(messages).contains(call) ==> waiting_calls(messages).contains(call),
        calls_to_run(messages) matches Some(calls) ==> (calls.contains(call) ==> waiting_calls(
            messages,
        ).contains(call)),
        waiting_calls(messages).contains(call) ==> pending_calls(messages).contains(call) || (
        calls_to_run(messages) matches Some(calls) && calls.contains(call)),
        waiting_calls(messages).len() == pending_calls(messages).len() + match calls_to_run(
            messages,
        ) {
            Some(calls) => calls.filter(|c: ToolCallView| answered(messages, c.id)).len(),
            None => 0,
        },
        waiting_calls(messages).take(pending_calls(messages).len() as int) == pending_calls(
            messages,
        ),
        calls_to_run(messages) matches Some(calls) ==> waiting_calls(messages).skip(
            pending_calls(messages).len() as int,
        ) == calls.filter(|c: ToolCallView| answered(messages, c.id)),
{
    let pending = pending_calls(messages);
    let waiting = waiting_calls(messages);
    let reused = |c: ToolCallView| answered(messages, c.id);
    assert(waiting.take(pending.len() as int) =~= pending);
    if let Some(calls) = calls_to_run(messages) {
        assert(waiting.skip(pending.len() as int) =~= calls.filter(reused));
    }
    if pending.contains(call) {
        let k = choose|k: int| 0 <= k < pending.len() && pending[k] == call;
        assert(waiting[k] == call);
    }
    if let Some(calls) = calls_to_run(messages) {
        if calls.contains(call) {
            let i = choose|i: int| 0 <= i < calls.len() && calls[i] == call;
            lemma_calls_to_run_wait(messages, i);
        }
    }
    if waiting.contains(call) {
        let k = choose|k: int| 0 <= k < waiting.len() && waiting[k] == call;
        if k < pending.len() {
            assert(pending[k] == call);
        } else {
            let calls = calls_to_run(messages)->0;
            lemma_filter_source(calls, reused, k - pending.len());
        }
    }
}

/// A call is asked about where it waits and its arguments hold one of the marks, and not otherwise;
/// the calls are asked about in order, each as often as it waits.
pub proof fn law_exactly_the_risky_calls_are_asked_about(
    patterns: Seq<Seq<char>>,
    messages: Seq<MessageView>,
    call: ToolCallView,
)
    ensures
        risky_calls(patterns, messages).contains(call) <==> waiting_calls(messages).contains(call)
            && risky(patterns, call),
        risky_calls(patterns, messages) == waiting_calls(messages).filter(
            |c: ToolCallView|
                exists|i: int|
                    0 <= i < patterns.len() && has_substring(c.arguments, #[trigger] patterns[i]),
        ),
{
    let waiting = waiting_calls(messages);
    let p = |c: ToolCallView| risky(patterns, c);
    let q = |c: ToolCallView|
        exists|i: int|
            0 <= i < patterns.len() && has_substring(c.arguments, #[trigger] patterns[i]);
    lemma_same_filter(waiting, p, q);
    if risky_calls(patterns, messages).contains(call) {
        let i = choose|i: int|
            0 <= i < risky_calls(patterns, messages).len() && risky_calls(patterns, messages)[i]
                == call;
        lemma_filter_source(waiting, p, i);
        waiting.lemma_filter_pred(p, i);
    }
    if waiting.contains(call) && risky(patterns, call) {
        let k = choose|k: int| 0 <= k < waiting.len() && waiting[k] == call;
        lemma_filter_keeps(waiting, p, k);
    }
}

/// Where the human refused, each risky call gets one result under its own identifier that says so,
/// for both sides to see, and the turn goes on.
pub proof fn law_each_refused_call_is_answered(
    result: Option<StepView>,
    patterns: Seq<Seq<char>>,
    messages: Seq<MessageView>,
    i: int,
)
    requires
        gated(result, patterns, messages),
        decision(messages) == Some(false),
        0 <= i < risky_calls(patterns, messages).len(),
    ensures
        result is Some,
        !result->0.yield_turn,
        result->0.effects.len() == risky_calls(patterns, messages).len(),
        result->0.effects[i] matches EffectView::AppendMessage(message) && {
            &&& message.body.role == Role::Tool
            &&& message.body.tool_call_id == Some(risky_calls(patterns, messages)[i].id)
            &&& message.body.content
                == "用户拒绝执行该命令。请勿重复尝试同一条命令，改为说明理由或提出更安全的替代方案。"@
            &&& message.body.user_visible && message.body.agent_visible
            &&& message.body.tool_calls is None && message.body.usage is None
            &&& message.body.error_kind is None
        },
{
    assert(result->0.effects[i] is AppendMessage);
}

/// Where the human has not answered and no answer is due, the human is asked: one message that the
/// model does not see holds the name and the arguments of each risky call, whole, and the turn
/// ends.
pub proof fn law_the_question_names_each_risky_call(
    result: Option<StepView>,
    patterns: Seq<Seq<char>>,
    messages: Seq<MessageView>,
    i: int,
)
    requires
        gated(result, patterns, messages),
        decision(messages) is None,
        !answer_due(messages),
        0 <= i < risky_calls(patterns, messages).len(),
    ensures
        result is Some,
        result->0.yield_turn,
        result->0.effects.len() == 1,
        result->0.effects[0] matches EffectView::AppendMessage(message) && {
            &&& message.body.role == Role::Assistant
            &&& message.body.user_visible && !message.body.agent_visible
            &&& has_substring(message.body.content, risky_calls(patterns, messages)[i].name)
            &&& has_substring(message.body.content, risky_calls(patterns, messages)[i].arguments)
            &&& message.body.tool_calls is None && message.body.error_kind is None
        },
{
    law_the_question_holds_every_call_whole(risky_calls(patterns, messages), i);
}

/// Where the question was put and not answered, approval waits: the turn ends, and the transcript
/// stays as it is. It passes only where no risky call waits or the human consented.
pub proof fn law_approval_waits(
    result: Option<StepView>,
    patterns: Seq<Seq<char>>,
    messages: Seq<MessageView>,
)
    requires
        gated(result, patterns, messages),
    ensures
        result is None <==> risky_calls(patterns, messages).len() == 0 || decision(messages)
            == Some(true),
        risky_calls(patterns, messages).len() > 0 && decision(messages) is None && answer_due(
            messages,
        ) ==> result is Some && result->0.yield_turn && result->0.effects.len() == 0,
{
}

} // verus!
