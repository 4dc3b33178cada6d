//! What is sent to the model, and what its reply becomes.

use crate::filter::lemma_filter_source;
use crate::ident::is_random_uuid;
use crate::laws::compaction::lemma_pairing_of_view;
use crate::message::{
    agent_view, last_fault, new_evidence, BodyView, MessageView, Role, TokenUsage, ToolCallView,
};
use crate::operations::inference::{
    appends, as_request, assistant_message, calls_tools, encoded_all, encoded_calls, function_call,
    function_calls, function_tool, offered, records_fault, reply_body, reply_taken, request_plan,
    self_healing, system_message, tool_message, user_message, Reply, ReplyCall, ReplyMessage,
    RequestView,
};
use crate::pairing::{
    answers, declares, law_every_call_has_its_result, law_every_result_has_its_call,
    only_results_between, pairing_ok,
};
use crate::pipeline::{EffectView, StepView};
use crate::provider_error::ErrorKind;
use crate::tool::ToolSpec;
use vstd::prelude::*;

verus! {

/// How many messages stand in front of the transcript in a request.
pub open spec fn lead(prompt: Option<Seq<char>>) -> int {
    if prompt is Some {
        1
    } else {
        0
    }
}

/// A request holds the system prompt first, where there is one, and one message for each that the
/// model sees.
pub proof fn law_a_request_holds_the_whole_view(
    prompt: Option<Seq<char>>,
    messages: Seq<MessageView>,
)
    ensures
        request_plan(prompt, messages).len() == agent_view(messages).len() + if prompt is Some {
            1int
        } else {
            0
        },
        prompt matches Some(text) ==> request_plan(prompt, messages)[0] == (RequestView::System {
            content: text,
        }),
{
}

/// What the human, the system and a tool said is sent word for word, in its place; of a result the
/// name of its call too.
pub proof fn law_words_are_sent_word_for_word(
    prompt: Option<Seq<char>>,
    messages: Seq<MessageView>,
    i: int,
)
    requires
        0 <= i < agent_view(messages).len(),
    ensures
        ({
            let said = agent_view(messages)[i].body;
            let sent = request_plan(prompt, messages)[lead(prompt) + i];
            &&& said.role == Role::User ==> sent == (RequestView::User { content: said.content })
            &&& said.role == Role::System ==> sent == (RequestView::System {
                content: said.content,
            })
            &&& said.role == Role::Tool ==> {
                &&& sent is Tool
                &&& sent->Tool_content == said.content
                &&& said.tool_call_id matches Some(id) ==> sent->tool_call_id == id
                &&& said.tool_call_id is None ==> sent->tool_call_id.len() == 0
            }
        }),
{
}

/// What the assistant said is sent with all of its calls: as many as the message declares, each
/// under its identifier, with its tool and all of its arguments, in order. Words are sent where
/// there are any.
pub proof fn law_every_declared_call_is_sent(
    prompt: Option<Seq<char>>,
    messages: Seq<MessageView>,
    i: int,
)
    requires
        0 <= i < agent_view(messages).len(),
        agent_view(messages)[i].body.role == Role::Assistant,
    ensures
        ({
            let said = agent_view(messages)[i].body;
            let sent = request_plan(prompt, messages)[lead(prompt) + i];
            &&& sent is Assistant
            &&& said.content.len() > 0 ==> sent->words == Some(said.content)
            &&& said.content.len() == 0 ==> sent->words is None
            &&& said.tool_calls is None ==> sent->tool_calls is None
            &&& said.tool_calls matches Some(calls) ==> {
                &&& sent->tool_calls is Some
                &&& (sent->tool_calls->0).len() == calls.len()
                &&& forall|k: int|
                    0 <= k < calls.len() ==> {
                        &&& (#[trigger] sent->tool_calls->0[k]).id == calls[k].id
                        &&& sent->tool_calls->0[k].name == calls[k].name
                        &&& sent->tool_calls->0[k].arguments == calls[k].arguments
                    }
            }
        }),
{
}

/// The same holds of the message as the client library has it: one function call for each call.
pub proof fn law_every_declared_call_reaches_the_client(
    prompt: Option<Seq<char>>,
    messages: Seq<MessageView>,
    i: int,
    calls: Seq<ToolCallView>,
)
    requires
        0 <= i < agent_view(messages).len(),
        agent_view(messages)[i].body.role == Role::Assistant,
        agent_view(messages)[i].body.tool_calls == Some(calls),
    ensures
        encoded_all(request_plan(prompt, messages)).len() == agent_view(messages).len() + lead(
            prompt,
        ),
        encoded_all(request_plan(prompt, messages))[lead(prompt) + i] == assistant_message(
            if agent_view(messages)[i].body.content.len() == 0 {
                None
            } else {
                Some(agent_view(messages)[i].body.content)
            },
            Some(Seq::new(
                calls.len(),
                |k: int| function_call(calls[k].id, calls[k].name, calls[k].arguments),
            )),
        ),
{
    let made = Seq::new(
        calls.len(),
        |k: int| function_call(calls[k].id, calls[k].name, calls[k].arguments),
    );
    assert(encoded_calls(calls) =~= made);
}

/// All other messages reach the client library with their words, one for one.
pub proof fn law_every_message_reaches_the_client(plan: Seq<RequestView>, i: int)
    requires
        0 <= i < plan.len(),
    ensures
        encoded_all(plan).len() == plan.len(),
        plan[i] matches RequestView::System { content } ==> encoded_all(plan)[i]
            == system_message(content),
        plan[i] matches RequestView::User { content } ==> encoded_all(plan)[i] == user_message(
            content,
        ),
        plan[i] matches RequestView::Tool { tool_call_id, content } ==> encoded_all(plan)[i]
            == tool_message(tool_call_id, content),
        plan[i] matches RequestView::Assistant { words, tool_calls } ==> (tool_calls is None
            ==> encoded_all(plan)[i] == assistant_message(words, None)),
{
}

/// Every tool is offered, in order, by its name, description and schema.
pub proof fn law_every_tool_is_offered(tools: Seq<ToolSpec>, i: int)
    requires
        0 <= i < tools.len(),
    ensures
        offered(tools).len() == tools.len(),
        offered(tools)[i] == function_tool(
            tools[i].name@,
            tools[i].description@,
            tools[i].parameters,
        ),
{
}

/// Nothing that the model sees can be told apart from something else and be sent alike: equal
/// requests come from views that agree in length and, message for message, in role and words, in
/// the calls of the assistant and in the calls that results belong to.
pub proof fn law_different_views_are_sent_differently(
    prompt: Option<Seq<char>>,
    a: Seq<MessageView>,
    b: Seq<MessageView>,
)
    requires
        request_plan(prompt, a) == request_plan(prompt, b),
    ensures
        agent_view(a).len() == agent_view(b).len(),
        forall|i: int|
            0 <= i < agent_view(a).len() ==> ({
                let x = (#[trigger] agent_view(a)[i]).body;
                let y = agent_view(b)[i].body;
                &&& x.role == y.role
                &&& x.content == y.content
                &&& x.role == Role::Assistant ==> x.tool_calls == y.tool_calls
                &&& x.role == Role::Tool && x.tool_call_id is Some && y.tool_call_id is Some
                    ==> x.tool_call_id == y.tool_call_id
            }),
{
    let n = lead(prompt);
    assert(request_plan(prompt, a).len() == agent_view(a).len() + n);
    assert(request_plan(prompt, b).len() == agent_view(b).len() + n);
    assert forall|i: int| 0 <= i < agent_view(a).len() implies ({
        let x = (#[trigger] agent_view(a)[i]).body;
        let y = agent_view(b)[i].body;
        &&& x.role == y.role
        &&& x.content == y.content
        &&& x.role == Role::Assistant ==> x.tool_calls == y.tool_calls
        &&& x.role == Role::Tool && x.tool_call_id is Some && y.tool_call_id is Some
            ==> x.tool_call_id == y.tool_call_id
    }) by {
        assert(request_plan(prompt, a)[n + i] == as_request(agent_view(a)[i]));
        assert(request_plan(prompt, b)[n + i] == as_request(agent_view(b)[i]));
        assert(agent_view(a)[i].body.content =~= agent_view(b)[i].body.content);
    }
}

/// The message of a request declares a call under this identifier.
pub open spec fn request_declares(message: RequestView, id: Seq<char>) -> bool {
    message matches RequestView::Assistant { tool_calls, .. } && tool_calls matches Some(calls)
        && exists|k: int| 0 <= k < calls.len() && (#[trigger] calls[k]).id == id
}

/// The message of a request is the result of the call under this identifier.
pub open spec fn request_answers(message: RequestView, id: Seq<char>) -> bool {
    message matches RequestView::Tool { tool_call_id, .. } && tool_call_id == id
}

/// Strictly between two places of a request stand tool results alone.
pub open spec fn only_results_sent_between(plan: Seq<RequestView>, j: int, i: int) -> bool {
    forall|k: int| j < k < i ==> #[trigger] plan[k] is Tool
}

/// A legal transcript is sent as a legal request: each result stands behind the call that it
/// belongs to, each call has its result behind it, and only results stand in between.
pub proof fn law_a_legal_view_is_sent_legally(
    prompt: Option<Seq<char>>,
    messages: Seq<MessageView>,
    at: int,
    id: Seq<char>,
)
    requires
        pairing_ok(messages),
        forall|m: int|
            0 <= m < messages.len() && (#[trigger] messages[m]).body.agent_visible
                && messages[m].body.tool_calls is Some && (messages[m].body.tool_calls->0).len() > 0
                ==> messages[m].body.role == Role::Assistant,
        0 <= at < request_plan(prompt, messages).len(),
    ensures
        request_answers(request_plan(prompt, messages)[at], id) ==> exists|j: int|
            0 <= j < at && request_declares(#[trigger] request_plan(prompt, messages)[j], id)
                && only_results_sent_between(request_plan(prompt, messages), j, at),
        request_declares(request_plan(prompt, messages)[at], id) ==> exists|i: int|
            at < i < request_plan(prompt, messages).len() && request_answers(
                #[trigger] request_plan(prompt, messages)[i],
                id,
            ) && only_results_sent_between(request_plan(prompt, messages), at, i),
{
    let p = |m: MessageView| m.body.agent_visible;
    let view = agent_view(messages);
    let plan = request_plan(prompt, messages);
    let n = lead(prompt);
    lemma_pairing_of_view(Some(Set::empty()), messages);
    assert forall|k: int| 0 <= k < view.len() implies (#[trigger] view[k]).body.agent_visible by {
        messages.lemma_filter_pred(p, k);
    }
    if request_answers(plan[at], id) {
        assert(at >= n);
        assert(view[at - n].body.agent_visible);
        law_every_result_has_its_call(view, at - n);
        let j = choose|j: int|
            #![trigger declares(view, j, view[at - n].body.tool_call_id->0)]
            j < at - n && declares(view, j, view[at - n].body.tool_call_id->0)
                && only_results_between(view, j, at - n);
        let calls = view[j].body.tool_calls->0;
        let names = calls.map_values(|c: ToolCallView| c.id);
        assert(names.contains(id));
        let k = choose|k: int| 0 <= k < names.len() && names[k] == id;
        assert(calls[k].id == id);
        lemma_filter_source(messages, p, j);
        assert(view[j].body.role == Role::Assistant);
        assert(request_declares(plan[j + n], id));
        assert forall|m: int| j + n < m < at implies #[trigger] plan[m] is Tool by {
            assert(view[m - n].body.agent_visible);
        }
    }
    if request_declares(plan[at], id) {
        assert(at >= n);
        assert(view[at - n].body.agent_visible);
        let calls = view[at - n].body.tool_calls->0;
        let names = calls.map_values(|c: ToolCallView| c.id);
        let k = choose|k: int| 0 <= k < calls.len() && (#[trigger] calls[k]).id == id;
        assert(names[k] == id);
        assert(names.contains(id));
        assert(declares(view, at - n, id));
        law_every_call_has_its_result(view, at - n, id);
        let i = choose|i: int|
            #![trigger answers(view, i, id)]
            at - n < i && answers(view, i, id) && only_results_between(view, at - n, i);
        assert(request_answers(plan[i + n], id));
        assert forall|m: int| at < m < i + n implies #[trigger] plan[m] is Tool by {
            assert(view[m - n].body.agent_visible);
        }
    }
}

/// Of a reply every function call is taken, in order; calls of other kinds are passed over.
pub proof fn law_every_function_call_is_taken(calls: Seq<ReplyCall>, call: ReplyCall)
    ensures
        function_calls(Seq::empty()) == Seq::<ToolCallView>::empty(),
        call matches ReplyCall::Function(f) ==> function_calls(calls.push(call)) == function_calls(
            calls,
        ).push(ToolCallView { id: f.id@, name: f.name@, arguments: f.arguments@ }),
        call is Custom ==> function_calls(calls.push(call)) == function_calls(calls),
{
    assert(calls.push(call).drop_last() =~= calls);
}

/// A reply of function calls alone is recorded call for call.
pub proof fn law_a_reply_is_recorded_call_for_call(calls: Seq<ReplyCall>)
    requires
        forall|i: int| 0 <= i < calls.len() ==> #[trigger] calls[i] is Function,
    ensures
        function_calls(calls).len() == calls.len(),
        forall|i: int|
            0 <= i < calls.len() ==> #[trigger] function_calls(calls)[i] == calls[i]->Function_0@,
    decreases calls.len(),
{
    if calls.len() > 0 {
        let rest = calls.drop_last();
        assert forall|i: int| 0 <= i < rest.len() implies #[trigger] rest[i] is Function by {
            assert(rest[i] == calls[i]);
        }
        law_a_reply_is_recorded_call_for_call(rest);
        assert(calls[calls.len() - 1] is Function);
        assert forall|i: int| 0 <= i < calls.len() implies #[trigger] function_calls(calls)[i]
            == calls[i]->Function_0@ by {
            if i < rest.len() {
                assert(function_calls(rest)[i] == rest[i]->Function_0@);
            }
        }
    }
}

/// What is put on record of a reply: both sides see it, with the usage as reported. With calls it
/// has no words of its own, without calls exactly the words.
pub proof fn law_what_a_reply_becomes(choice: ReplyMessage, usage: Option<TokenUsage>)
    ensures
        calls_tools(choice) <==> choice.tool_calls is Some && (choice.tool_calls->0)@.len() > 0,
        ({
            let said = reply_body(choice, usage);
            &&& said.role == Role::Assistant
            &&& said.user_visible && said.agent_visible
            &&& said.usage == usage
            &&& said.error_kind is None && said.tool_call_id is None
            &&& calls_tools(choice) ==> said.content.len() == 0 && said.tool_calls == Some(
                function_calls((choice.tool_calls->0)@),
            )
            &&& !calls_tools(choice) ==> said.tool_calls is None
            &&& !calls_tools(choice) && choice.content is Some ==> said.content
                == (choice.content->0)@
            &&& !calls_tools(choice) && choice.content is None ==> said.content.len() == 0
        }),
{
}

/// A fault goes on record once, as one message with its cause and its whole detail for the human
/// alone; the turn goes on only at an overflow that is the first in a row and comes on new
/// evidence.
pub proof fn law_how_a_fault_is_recorded(
    step: StepView,
    messages: Seq<MessageView>,
    kind: ErrorKind,
    detail: Seq<char>,
)
    ensures
        !records_fault(None, messages, kind, detail),
        self_healing(messages, kind) <==> {
            &&& kind == ErrorKind::ContextLengthExceeded
            &&& last_fault(messages) != Some(ErrorKind::ContextLengthExceeded)
            &&& new_evidence(messages)
        },
        records_fault(Some(step), messages, kind, detail) ==> {
            &&& step.effects.len() == 1
            &&& step.effects[0] is AppendMessage
            &&& step.yield_turn != self_healing(messages, kind)
            &&& ({
                let message = step.effects[0]->AppendMessage_0;
                &&& is_random_uuid(message.id)
                &&& message.body.role == Role::Assistant
                &&& message.body.content == detail
                &&& message.body.error_kind == Some(kind)
                &&& message.body.user_visible && !message.body.agent_visible
                &&& message.body.tool_calls is None
                &&& message.body.tool_call_id is None
                &&& message.body.usage is None
            })
        },
{
}

/// One effect appends one message and names it anew.
pub proof fn law_one_message_is_appended(
    effects: Seq<EffectView>,
    body: BodyView,
)
    ensures
        appends(effects, body) <==> {
            &&& effects.len() == 1
            &&& effects[0] is AppendMessage
            &&& effects[0]->AppendMessage_0.body == body
            &&& is_random_uuid(effects[0]->AppendMessage_0.id)
        },
{
}

/// Of a reply the first candidate counts, and one message of the assistant is put on record for
/// both sides with the usage of the reply. Calls keep the turn; words, to the last character, end
/// it.
pub proof fn law_the_first_candidate_counts(step: StepView, reply: Reply)
    requires
        reply_taken(Some(step), reply),
    ensures
        reply.choices@.len() > 0,
        step.effects.len() == 1,
        step.effects[0] is AppendMessage,
        ({
            let said = step.effects[0]->AppendMessage_0.body;
            let first = reply.choices@[0];
            let calls = match first.tool_calls {
                Some(calls) => calls@,
                None => Seq::empty(),
            };
            &&& said.role == Role::Assistant
            &&& said.user_visible && said.agent_visible
            &&& said.usage == reply.usage
            &&& said.error_kind is None && said.tool_call_id is None
            &&& step.yield_turn <==> calls.len() == 0
            &&& calls.len() > 0 ==> said.tool_calls == Some(function_calls(calls))
                && said.content.len() == 0
            &&& calls.len() == 0 ==> said.tool_calls is None
            &&& calls.len() == 0 && first.content is Some ==> said.content == (first.content->0)@
            &&& calls.len() == 0 && first.content is None ==> said.content.len() == 0
        }),
        !reply_taken(None, reply),
{
}

} // verus!
