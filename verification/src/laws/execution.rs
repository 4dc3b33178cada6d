//! What running tools does to the protocol.

use crate::engine::apply_effects;
use crate::filter::{lemma_filter_keeps, lemma_filter_source, lemma_none_left};
use crate::laws::transcript::{
    appended, law_history_only_grows, law_results_settle_calls, law_results_stay,
    lemma_quiet_messages_keep_the_request, only_appends,
};
use crate::message::{
    answered, calls_of, pending_calls, tool_response_body, MessageView, Role, ToolCallView,
};
use crate::operations::tool_exec::{
    answers_all, bears, calls_to_run, dispatched, output_text, request_at, tool_named, Dispatch,
    Executed,
};
use crate::pairing::{
    answers, declared_ids, declares, lemma_pairing_join, lemma_waiting, pairing_after,
    pairing_from, pairing_ok, waits, waits_since,
};
use crate::pipeline::EffectView;
use crate::search::lemma_last_in;
use vstd::prelude::*;

verus! {

/// The calls were run, one by one and in order.
pub open spec fn ran(executed: Seq<Executed>, calls: Seq<ToolCallView>) -> bool {
    &&& executed.len() == calls.len()
    &&& forall|i: int| 0 <= i < calls.len() ==> (#[trigger] executed[i]).call@ == calls[i]
}

proof fn lemma_results(effects: Seq<EffectView>, executed: Seq<Executed>)
    requires
        answers_all(effects, executed),
    ensures
        only_appends(effects),
        appended(effects).len() == executed.len(),
        forall|i: int|
            0 <= i < executed.len() ==> (#[trigger] appended(effects)[i]).body
                == tool_response_body(executed[i].call@.id, output_text(executed[i])),
{
    assert forall|i: int| 0 <= i < executed.len() implies (
    #[trigger] appended(effects)[i]).body == tool_response_body(
        executed[i].call@.id,
        output_text(executed[i]),
    ) by {
        assert(effects[i] is AppendMessage);
    }
}

/// Every call that was run has its result, and none of them waits any more.
pub proof fn law_every_call_gets_a_result(
    messages: Seq<MessageView>,
    executed: Seq<Executed>,
    effects: Seq<EffectView>,
)
    requires
        calls_to_run(messages) matches Some(calls) && ran(executed, calls),
        answers_all(effects, executed),
    ensures
        forall|i: int|
            0 <= i < executed.len() ==> answered(
                apply_effects(messages, effects),
                (#[trigger] executed[i]).call@.id,
            ),
        forall|n: int, i: int|
            0 <= n < pending_calls(apply_effects(messages, effects)).len() && 0 <= i
                < executed.len() ==> (#[trigger] pending_calls(
                apply_effects(messages, effects),
            )[n]).id != (#[trigger] executed[i]).call@.id,
{
    let results = appended(effects);
    let after = apply_effects(messages, effects);
    lemma_results(effects, executed);
    law_history_only_grows(messages, effects);
    assert forall|i: int| 0 <= i < executed.len() implies answered(
        after,
        (#[trigger] executed[i]).call@.id,
    ) by {
        assert(after[messages.len() + i] == results[i]);
    }
    assert forall|n: int, i: int|
        0 <= n < pending_calls(after).len() && 0 <= i < executed.len() implies (
    #[trigger] pending_calls(after)[n]).id != (#[trigger] executed[i]).call@.id by {
        law_results_settle_calls(messages, results, n);
        assert(results[i].body.tool_call_id == Some(executed[i].call@.id));
    }
}

/// The calls are not run again: behind their results nothing of that message is left to run.
pub proof fn law_calls_run_once(
    messages: Seq<MessageView>,
    executed: Seq<Executed>,
    effects: Seq<EffectView>,
)
    requires
        calls_to_run(messages) matches Some(calls) && ran(executed, calls),
        answers_all(effects, executed),
    ensures
        calls_to_run(apply_effects(messages, effects)) is None,
{
    let results = appended(effects);
    let after = apply_effects(messages, effects);
    let at = request_at(messages)->0;
    lemma_results(effects, executed);
    law_history_only_grows(messages, effects);
    lemma_quiet_messages_keep_the_request(messages, results);
    assert(after[at] == messages[at]);
    let rest = messages.skip(at + 1);
    assert(after.skip(at + 1) =~= rest + results);
    let all = calls_of(messages[at]);
    let waited = |c: ToolCallView| !answered(rest, c.id);
    let waits = |c: ToolCallView| !answered(after.skip(at + 1), c.id);
    assert forall|i: int| 0 <= i < all.len() implies !waits(#[trigger] all[i]) by {
        if waited(all[i]) {
            lemma_filter_keeps(all, waited, i);
            let n = choose|n: int| 0 <= n < all.filter(waited).len() && all.filter(waited)[n]
                == all[i];
            assert(executed[n].call@ == all[i]);
            assert((rest + results)[rest.len() + n] == results[n]);
        } else {
            law_results_stay(rest, results, all[i].id);
        }
    }
    lemma_none_left(all, waits);
}

/// The results behind the calls that are up are all in the model's view, and so are the calls.
pub open spec fn round_trip_is_visible(messages: Seq<MessageView>) -> bool {
    request_at(messages) matches Some(at) && messages[at].body.agent_visible && forall|k: int|
        at < k < messages.len() && (#[trigger] messages[k]).body.role == Role::Tool
            ==> messages[k].body.agent_visible
}

/// The calls to run are just those that the protocol waits for: where any call waits, there is
/// something to run.
pub proof fn law_the_calls_that_wait_are_to_run(messages: Seq<MessageView>)
    requires
        round_trip_is_visible(messages),
        pairing_after(messages) is Some,
    ensures
        pairing_after(messages) == Some(
            match calls_to_run(messages) {
                Some(calls) => declared_ids(calls),
                None => Set::empty(),
            },
        ),
{
    let at = request_at(messages)->0;
    let n = messages.len() as int;
    let rest = messages.skip(at + 1);
    let up = calls_of(messages[at]);
    let unsettled = |c: ToolCallView| !answered(rest, c.id);
    let left = up.filter(unsettled);
    let ids = left.map_values(|c: ToolCallView| c.id);
    let all_ids = up.map_values(|c: ToolCallView| c.id);
    let waiting = pairing_after(messages)->0;
    lemma_last_in(0, n - 1, |i: int| calls_of(messages[i]).len() > 0);
    assert(messages.take(n) =~= messages);
    assert forall|id: Seq<char>| waiting.contains(id) == ids.to_set().contains(id) by {
        lemma_waiting(messages, n, id);
        if waits(messages, n, id) {
            let j = choose|j: int| #[trigger] waits_since(messages, j, n, id);
            if j < at {
                assert(messages[at].body.role == Role::Tool);
            } else if j > at {
                assert(messages[j].body.role == Role::Tool);
            }
            let m = choose|m: int| 0 <= m < all_ids.len() && all_ids[m] == id;
            if answered(rest, id) {
                let k = choose|k: int|
                    0 <= k < rest.len() && (#[trigger] rest[k]).body.role == Role::Tool
                        && rest[k].body.tool_call_id == Some(id);
                assert(messages[at + 1 + k] == rest[k]);
                assert(answers(messages, at + 1 + k, id));
            }
            lemma_filter_keeps(up, unsettled, m);
            let i = choose|i: int| 0 <= i < left.len() && left[i] == up[m];
            assert(ids[i] == id);
        }
        if ids.contains(id) {
            let i = choose|i: int| 0 <= i < ids.len() && ids[i] == id;
            up.lemma_filter_pred(unsettled, i);
            lemma_filter_source(up, unsettled, i);
            let m = choose|m: int| 0 <= m < up.len() && #[trigger] up[m] == left[i];
            assert(all_ids[m] == id);
            assert(declares(messages, at, id));
            assert forall|k: int| at < k < n implies !#[trigger] answers(messages, k, id) by {
                assert(rest[k - at - 1] == messages[k]);
            }
            assert(waits_since(messages, at, n, id));
        }
    }
    assert(waiting =~= ids.to_set());
    if left.len() == 0 {
        assert(ids.to_set() =~= Set::empty());
    }
}

/// The identifiers of the calls from `k` on.
spec fn ids_from(calls: Seq<ToolCallView>, k: int) -> Set<Seq<char>> {
    declared_ids(calls.skip(k))
}

proof fn lemma_settled(calls: Seq<ToolCallView>, results: Seq<MessageView>, k: int)
    requires
        0 <= k <= calls.len(),
        results.len() == calls.len(),
        forall|i: int, j: int| 0 <= i < j < calls.len() ==> calls[i].id != calls[j].id,
        forall|i: int|
            0 <= i < calls.len() ==> {
                &&& (#[trigger] results[i]).body.role == Role::Tool
                &&& results[i].body.agent_visible
                &&& results[i].body.tool_call_id == Some(calls[i].id)
            },
    ensures
        pairing_from(Some(declared_ids(calls)), results.take(k)) == Some(ids_from(calls, k)),
    decreases k,
{
    if k == 0 {
        assert(results.take(0) =~= Seq::empty());
        assert(calls.skip(0) =~= calls);
    } else {
        lemma_settled(calls, results, k - 1);
        assert(results.take(k).drop_last() =~= results.take(k - 1));
        assert(results.take(k).last() == results[k - 1]);
        let id = calls[k - 1].id;
        let before = calls.skip(k - 1).map_values(|c: ToolCallView| c.id);
        let after = calls.skip(k).map_values(|c: ToolCallView| c.id);
        assert(before[0] == id);
        assert(before.contains(id));
        assert forall|x: Seq<char>|
            after.to_set().contains(x) == before.to_set().remove(id).contains(x) by {
            if after.contains(x) {
                let i = choose|i: int| 0 <= i < after.len() && after[i] == x;
                assert(after[i] == calls[k + i].id);
                assert(before[i + 1] == x);
            }
            if before.contains(x) && x != id {
                let i = choose|i: int| 0 <= i < before.len() && before[i] == x;
                assert(after[i - 1] == x);
            }
        }
        assert(after.to_set() =~= before.to_set().remove(id));
    }
}

/// Running the calls completes the round trip: a transcript that was not broken is legal again,
/// provided that no two of the calls share an identifier.
pub proof fn law_execution_completes_the_round_trip(
    messages: Seq<MessageView>,
    executed: Seq<Executed>,
    effects: Seq<EffectView>,
)
    requires
        round_trip_is_visible(messages),
        pairing_after(messages) is Some,
        calls_to_run(messages) matches Some(calls) && ran(executed, calls) && forall|i: int, j: int|
            0 <= i < j < calls.len() ==> calls[i].id != calls[j].id,
        answers_all(effects, executed),
    ensures
        pairing_ok(apply_effects(messages, effects)),
{
    let calls = calls_to_run(messages)->0;
    let results = appended(effects);
    let start = Some(Set::<Seq<char>>::empty());
    law_the_calls_that_wait_are_to_run(messages);
    lemma_results(effects, executed);
    law_history_only_grows(messages, effects);
    assert forall|i: int| 0 <= i < calls.len() implies {
        &&& (#[trigger] results[i]).body.role == Role::Tool
        &&& results[i].body.agent_visible
        &&& results[i].body.tool_call_id == Some(calls[i].id)
    } by {
        assert(executed[i].call@ == calls[i]);
    }
    lemma_settled(calls, results, calls.len() as int);
    assert(results.take(calls.len() as int) =~= results);
    assert(ids_from(calls, calls.len() as int) =~= Set::empty());
    lemma_pairing_join(start, messages, results);
}

/// A tool is found by its whole name: of several under one name the last, and none under another
/// name.
pub proof fn law_a_tool_is_found_by_its_name(names: Seq<Seq<char>>, name: Seq<char>, at: int)
    ensures
        tool_named(names, name) == Some(at) <==> {
            &&& 0 <= at < names.len()
            &&& names[at] == name
            &&& forall|k: int| at < k < names.len() ==> #[trigger] names[k] != name
        },
        tool_named(names, name) is None <==> forall|k: int|
            0 <= k < names.len() ==> #[trigger] names[k] != name,
{
    let p = |i: int| bears(names, i, name);
    lemma_last_in(0, names.len() - 1, p);
    if let Some(i) = tool_named(names, name) {
        assert(p(i));
        assert forall|k: int| i < k < names.len() implies #[trigger] names[k] != name by {
            assert(!p(k));
        }
    } else {
        assert forall|k: int| 0 <= k < names.len() implies #[trigger] names[k] != name by {
            assert(!p(k));
        }
    }
}

/// Each call goes to the tool of its name, as it was made, and in order; a call of a tool that
/// there is not goes to none.
pub proof fn law_each_call_goes_to_its_tool(
    dispatches: Seq<Dispatch>,
    calls: Seq<ToolCallView>,
    names: Seq<Seq<char>>,
    i: int,
)
    requires
        dispatched(dispatches, calls, names),
        0 <= i < calls.len(),
    ensures
        dispatches.len() == calls.len(),
        dispatches[i].call.id@ == calls[i].id,
        dispatches[i].call.name@ == calls[i].name,
        dispatches[i].call.arguments@ == calls[i].arguments,
        dispatches[i].tool matches Some(tool) ==> tool < names.len() && names[tool as int]
            == calls[i].name,
        dispatches[i].tool is None ==> forall|k: int|
            0 <= k < names.len() ==> #[trigger] names[k] != calls[i].name,
{
    let tool = match dispatches[i].tool {
        Some(tool) => tool as int,
        None => 0,
    };
    assert(dispatches[i].call@ == calls[i]);
    law_a_tool_is_found_by_its_name(names, calls[i].name, tool);
}

/// What the model is told of a call: the output as it is, to the last character; an error behind
/// words that say that it is one; of a tool that there is not, its name.
pub proof fn law_what_the_model_is_told(executed: Executed)
    ensures
        executed.outcome matches Some(Ok(output)) ==> output_text(executed) == output@,
        executed.outcome matches Some(Err(error)) ==> output_text(executed) == "工具执行出错: "@
            + error@,
        executed.outcome is None ==> output_text(executed) == "错误：未找到名为 '"@
            + executed.call.name@ + "' 的工具"@,
{
}

/// Each call that was run gets one result, under its own identifier and in order, for both sides
/// to see.
pub proof fn law_each_result_names_its_call(
    effects: Seq<EffectView>,
    executed: Seq<Executed>,
    i: int,
)
    requires
        answers_all(effects, executed),
        0 <= i < executed.len(),
    ensures
        effects.len() == executed.len(),
        effects[i] matches EffectView::AppendMessage(message) && {
            &&& message.body.role == Role::Tool
            &&& message.body.tool_call_id == Some(executed[i].call.id@)
            &&& message.body.content == output_text(executed[i])
            &&& message.body.user_visible && message.body.agent_visible
            &&& message.body.tool_calls is None && message.body.usage is None
            &&& message.body.error_kind is None
        },
{
    assert(effects[i] is AppendMessage);
}

} // verus!
