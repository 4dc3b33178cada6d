//! Inference: what is sent to the model, and what becomes of its reply.

use crate::ident::is_random_uuid;
use crate::message::{
    agent_view, calls_view, clone_calls, error_body, last_fault, new_evidence, plain_body,
    refs_view, BodyView, Context, Message, MessageView, Role, TokenUsage, ToolCall, ToolCallView,
};
use crate::pipeline::{Effect, EffectView, OperationResult, StepView};
use crate::provider_error::{
    classify, kind_of_fault, opt_text, told_by, words_of_fault, ErrorKind,
};
use crate::tool::ToolSpec;
use async_openai::error::OpenAIError;
use async_openai::types::chat::{
    ChatCompletionMessageToolCall, ChatCompletionMessageToolCalls,
    ChatCompletionRequestAssistantMessage, ChatCompletionRequestMessage,
    ChatCompletionRequestSystemMessageArgs, ChatCompletionRequestToolMessageArgs,
    ChatCompletionRequestUserMessageArgs, ChatCompletionTool, ChatCompletionTools,
    CreateChatCompletionRequest, CreateChatCompletionRequestArgs, FunctionCall, FunctionObjectArgs,
};
use serde_json::Value;
use vstd::prelude::*;

verus! {

/// A message of a request, in plain values.
#[derive(Debug)]
pub enum RequestMessage {
    System { content: String },
    User { content: String },
    Assistant { words: Option<String>, tool_calls: Option<Vec<ToolCall>> },
    Tool { tool_call_id: String, content: String },
}

/// What a [`RequestMessage`] holds.
pub enum RequestView {
    System { content: Seq<char> },
    User { content: Seq<char> },
    Assistant { words: Option<Seq<char>>, tool_calls: Option<Seq<ToolCallView>> },
    Tool { tool_call_id: Seq<char>, content: Seq<char> },
}

impl View for RequestMessage {
    type V = RequestView;

    open spec fn view(&self) -> RequestView {
        match *self {
            RequestMessage::System { content } => RequestView::System { content: content@ },
            RequestMessage::User { content } => RequestView::User { content: content@ },
            RequestMessage::Assistant { words, tool_calls } => RequestView::Assistant {
                words: opt_text(words),
                tool_calls: match tool_calls {
                    Some(calls) => Some(calls_view(calls@)),
                    None => None,
                },
            },
            RequestMessage::Tool { tool_call_id, content } => RequestView::Tool {
                tool_call_id: tool_call_id@,
                content: content@,
            },
        }
    }
}

/// What a row of request messages holds.
pub open spec fn requests_view(messages: Seq<RequestMessage>) -> Seq<RequestView> {
    messages.map_values(|m: RequestMessage| m@)
}

/// How a message of the transcript is sent. An assistant without words sends none; a result
/// without the name of its call sends an empty one.
pub open spec fn as_request(message: MessageView) -> RequestView {
    let body = message.body;
    match body.role {
        Role::User => RequestView::User { content: body.content },
        Role::Assistant => RequestView::Assistant {
            words: if body.content.len() == 0 {
                None
            } else {
                Some(body.content)
            },
            tool_calls: body.tool_calls,
        },
        Role::Tool => RequestView::Tool {
            tool_call_id: match body.tool_call_id {
                Some(id) => id,
                None => Seq::empty(),
            },
            content: body.content,
        },
        Role::System => RequestView::System { content: body.content },
    }
}

/// The messages of a request: the system prompt, if there is one, then what the model sees of the
/// transcript, in order.
pub open spec fn request_plan(prompt: Option<Seq<char>>, messages: Seq<MessageView>) -> Seq<
    RequestView,
> {
    (match prompt {
        Some(content) => seq![RequestView::System { content }],
        None => Seq::empty(),
    }) + agent_view(messages).map_values(|m: MessageView| as_request(m))
}

fn to_request(message: &Message) -> (r: RequestMessage)
    ensures
        r@ == as_request(message@),
{
    match message.role {
        Role::User => RequestMessage::User { content: message.content.clone() },
        Role::Assistant => RequestMessage::Assistant {
            words: if message.content.as_str().is_empty() {
                None
            } else {
                Some(message.content.clone())
            },
            tool_calls: match &message.tool_calls {
                Some(calls) => Some(clone_calls(calls)),
                None => None,
            },
        },
        Role::Tool => RequestMessage::Tool {
            tool_call_id: match &message.tool_call_id {
                Some(id) => id.clone(),
                None => String::new(),
            },
            content: message.content.clone(),
        },
        Role::System => RequestMessage::System { content: message.content.clone() },
    }
}

/// The messages of a request for this transcript.
pub fn plan_request(system_prompt: &Option<String>, ctx: &Context) -> (r: Vec<RequestMessage>)
    ensures
        requests_view(r@) == request_plan(opt_text(*system_prompt), ctx@),
        r@.len() == agent_view(ctx@).len() + if system_prompt is Some {
            1int
        } else {
            0
        },
        forall|i: int|
            0 <= i < agent_view(ctx@).len() && (#[trigger] agent_view(ctx@)[i]).body.role
                == Role::Assistant ==> ({
                let sent = r@[i + r@.len() - agent_view(ctx@).len()]@;
                sent is Assistant && sent->tool_calls == agent_view(ctx@)[i].body.tool_calls
            }),
{
    let mut r: Vec<RequestMessage> = Vec::new();
    if let Some(prompt) = system_prompt {
        r.push(RequestMessage::System { content: prompt.clone() });
    }
    let ghost head = requests_view(r@);
    let ghost view = agent_view(ctx@);
    let ghost f = |m: MessageView| as_request(m);
    let seen = ctx.for_agent();
    let mut i: usize = 0;
    assert(head + view.take(0).map_values(f) =~= head);
    while i < seen.len()
        invariant
            i <= seen@.len(),
            refs_view(seen@) == view,
            f == (|m: MessageView| as_request(m)),
            requests_view(r@) == head + view.take(i as int).map_values(f),
        decreases seen@.len() - i,
    {
        let ghost before = requests_view(r@);
        let message = to_request(seen[i]);
        let ghost sent = message@;
        r.push(message);
        proof {
            assert(view[i as int] == seen@[i as int]@);
            assert(requests_view(r@) =~= before.push(sent));
            assert(view.take(i + 1).map_values(f) =~= view.take(i as int).map_values(f).push(sent));
        }
        i += 1;
        assert(requests_view(r@) =~= head + view.take(i as int).map_values(f));
    }
    assert(view.take(view.len() as int) =~= view);
    assert(head =~= match opt_text(*system_prompt) {
        Some(content) => seq![RequestView::System { content }],
        None => Seq::empty(),
    });
    proof {
        assert(requests_view(r@).len() == r@.len());
        assert forall|i: int|
            0 <= i < view.len() && (#[trigger] view[i]).body.role == Role::Assistant implies ({
            let sent = r@[i + r@.len() - view.len()]@;
            sent is Assistant && sent->tool_calls == view[i].body.tool_calls
        }) by {
            assert(requests_view(r@)[i + head.len()] == r@[i + head.len() as int]@);
        }
    }
    r
}

/// A message of a request, as the client library has it.
#[verifier::external_type_specification]
#[verifier::external_body]
pub struct ExRequestMessage(ChatCompletionRequestMessage);

/// A tool call in a request, as the client library has it.
#[verifier::external_type_specification]
#[verifier::external_body]
pub struct ExToolCalls(ChatCompletionMessageToolCalls);

/// A tool on offer, as the client library has it.
#[verifier::external_type_specification]
#[verifier::external_body]
pub struct ExTools(ChatCompletionTools);

/// A request, as the client library has it.
#[verifier::external_type_specification]
#[verifier::external_body]
pub struct ExRequest(CreateChatCompletionRequest);

/// The system message that `ChatCompletionRequestSystemMessageArgs` builds from a text.
pub uninterp spec fn system_message(content: Seq<char>) -> ChatCompletionRequestMessage;

/// The user message that `ChatCompletionRequestUserMessageArgs` builds from a text.
pub uninterp spec fn user_message(content: Seq<char>) -> ChatCompletionRequestMessage;

/// The tool message that `ChatCompletionRequestToolMessageArgs` builds from the name of a call and
/// a text.
pub uninterp spec fn tool_message(
    call_id: Seq<char>,
    content: Seq<char>,
) -> ChatCompletionRequestMessage;

/// The assistant message with these words and these calls, and nothing else set.
pub uninterp spec fn assistant_message(
    content: Option<Seq<char>>,
    calls: Option<Seq<ChatCompletionMessageToolCalls>>,
) -> ChatCompletionRequestMessage;

/// The function call with this name, function and arguments.
pub uninterp spec fn function_call(
    id: Seq<char>,
    name: Seq<char>,
    arguments: Seq<char>,
) -> ChatCompletionMessageToolCalls;

/// The tool that `FunctionObjectArgs` builds from a name, a description and a schema.
pub uninterp spec fn function_tool(
    name: Seq<char>,
    description: Seq<char>,
    parameters: Value,
) -> ChatCompletionTools;

/// The request that `CreateChatCompletionRequestArgs` builds from a model, messages and tools.
pub uninterp spec fn chat_request(
    model: Seq<char>,
    messages: Seq<ChatCompletionRequestMessage>,
    tools: Seq<ChatCompletionTools>,
) -> CreateChatCompletionRequest;

/// The builder succeeded, with the result that the name stands for.
pub open spec fn built<T>(result: Result<T, OpenAIError>, named: T) -> bool {
    result matches Ok(value) && value == named
}

/// Builds a system message with `ChatCompletionRequestSystemMessageArgs`.
///
/// Claimed is that this succeeds, since every field of the builder has a default, and that what
/// comes out depends on the text alone.
#[verifier::external_body]
fn build_system(content: &str) -> (r: Result<ChatCompletionRequestMessage, OpenAIError>)
    ensures
        built(r, system_message(content@)),
{
    Ok(ChatCompletionRequestSystemMessageArgs::default().content(content).build()?.into())
}

/// Builds a user message with `ChatCompletionRequestUserMessageArgs`.
///
/// Claimed is that this succeeds, since every field of the builder has a default, and that what
/// comes out depends on the text alone.
#[verifier::external_body]
fn build_user(content: &str) -> (r: Result<ChatCompletionRequestMessage, OpenAIError>)
    ensures
        built(r, user_message(content@)),
{
    Ok(ChatCompletionRequestUserMessageArgs::default().content(content).build()?.into())
}

/// Builds a tool message with `ChatCompletionRequestToolMessageArgs`.
///
/// Claimed is that this succeeds, since every field of the builder has a default, and that what
/// comes out depends on the name of the call and the text alone.
#[verifier::external_body]
fn build_tool(call_id: &str, content: &str) -> (r: Result<
    ChatCompletionRequestMessage,
    OpenAIError,
>)
    ensures
        built(r, tool_message(call_id@, content@)),
{
    Ok(
        ChatCompletionRequestToolMessageArgs::default().tool_call_id(call_id).content(
            content,
        ).build()?.into(),
    )
}

/// The elements of an optional vector.
pub open spec fn opt_seq<T>(items: Option<Vec<T>>) -> Option<Seq<T>> {
    match items {
        Some(items) => Some(items@),
        None => None,
    }
}

/// Makes a `ChatCompletionRequestAssistantMessage` with these words and calls, the other fields at
/// their defaults, and turns it into a message of a request.
///
/// Claimed is that what comes out depends on the words and the calls alone.
#[verifier::external_body]
fn make_assistant(
    content: Option<String>,
    calls: Option<Vec<ChatCompletionMessageToolCalls>>,
) -> (r: ChatCompletionRequestMessage)
    ensures
        r == assistant_message(opt_text(content), opt_seq(calls)),
{
    ChatCompletionRequestAssistantMessage {
        content: content.map(Into::into),
        tool_calls: calls,
        ..Default::default()
    }.into()
}

/// Makes a `ChatCompletionMessageToolCalls` of the variant `Function`.
///
/// Claimed is that what comes out depends on the three texts alone.
#[verifier::external_body]
fn make_call(call: &ToolCall) -> (r: ChatCompletionMessageToolCalls)
    ensures
        r == function_call(call@.id, call@.name, call@.arguments),
{
    ChatCompletionMessageToolCalls::Function(
        ChatCompletionMessageToolCall {
            id: call.id.clone(),
            function: FunctionCall { name: call.name.clone(), arguments: call.arguments.clone() },
        },
    )
}

/// Builds a tool of the variant `Function` with `FunctionObjectArgs`.
///
/// Claimed is that this succeeds, since every field of the builder has a default, and that what
/// comes out depends on the name, the description and the schema alone.
#[verifier::external_body]
fn build_function(tool: &ToolSpec) -> (r: Result<ChatCompletionTools, OpenAIError>)
    ensures
        built(r, function_tool(tool.name@, tool.description@, tool.parameters)),
{
    let function = FunctionObjectArgs::default().name(tool.name.as_str()).description(
        tool.description.as_str(),
    ).parameters(tool.parameters.clone()).build()?;
    Ok(ChatCompletionTools::Function(ChatCompletionTool { function }))
}

/// Builds a request with `CreateChatCompletionRequestArgs`.
///
/// Claimed is that this succeeds, since every field of the builder has a default, and that what
/// comes out depends on the model, the messages and the tools alone.
#[verifier::external_body]
fn build_request(
    model: &str,
    messages: Vec<ChatCompletionRequestMessage>,
    tools: &Vec<ChatCompletionTools>,
) -> (r: Result<CreateChatCompletionRequest, OpenAIError>)
    ensures
        built(r, chat_request(model@, messages@, tools@)),
{
    CreateChatCompletionRequestArgs::default().model(model).messages(messages).tools(
        tools.clone(),
    ).build()
}

/// The calls of a request, each as the client library has it.
pub open spec fn encoded_calls(calls: Seq<ToolCallView>) -> Seq<ChatCompletionMessageToolCalls> {
    calls.map_values(|c: ToolCallView| function_call(c.id, c.name, c.arguments))
}

/// A message of a request, as the client library has it.
pub open spec fn encoded(message: RequestView) -> ChatCompletionRequestMessage {
    match message {
        RequestView::System { content } => system_message(content),
        RequestView::User { content } => user_message(content),
        RequestView::Assistant { words, tool_calls } => assistant_message(
            words,
            match tool_calls {
                Some(calls) => Some(encoded_calls(calls)),
                None => None,
            },
        ),
        RequestView::Tool { tool_call_id, content } => tool_message(tool_call_id, content),
    }
}

/// The messages of a request, each as the client library has it.
pub open spec fn encoded_all(plan: Seq<RequestView>) -> Seq<ChatCompletionRequestMessage> {
    plan.map_values(|m: RequestView| encoded(m))
}

/// The tools on offer, each as the client library has it.
pub open spec fn offered(tools: Seq<ToolSpec>) -> Seq<ChatCompletionTools> {
    tools.map_values(
        |tool: ToolSpec| function_tool(tool.name@, tool.description@, tool.parameters),
    )
}

fn encode(message: &RequestMessage) -> (r: Result<ChatCompletionRequestMessage, OpenAIError>)
    ensures
        built(r, encoded(message@)),
{
    match message {
        RequestMessage::System { content } => build_system(content.as_str()),
        RequestMessage::User { content } => build_user(content.as_str()),
        RequestMessage::Assistant { words, tool_calls } => {
            let calls = match tool_calls {
                Some(calls) => {
                    let mut made: Vec<ChatCompletionMessageToolCalls> = Vec::new();
                    let ghost all = encoded_calls(calls_view(calls@));
                    let mut i: usize = 0;
                    while i < calls.len()
                        invariant
                            i <= calls@.len(),
                            all == encoded_calls(calls_view(calls@)),
                            made@ == all.take(i as int),
                        decreases calls@.len() - i,
                    {
                        made.push(make_call(&calls[i]));
                        i += 1;
                        assert(made@ =~= all.take(i as int));
                    }
                    assert(all.take(calls@.len() as int) =~= all);
                    Some(made)
                },
                None => None,
            };
            Ok(make_assistant(words.clone(), calls))
        },
        RequestMessage::Tool { tool_call_id, content } => build_tool(
            tool_call_id.as_str(),
            content.as_str(),
        ),
    }
}

/// Why an inference comes to nothing.
#[derive(Debug)]
pub enum InferenceError {
    /// The client library refused to build the request; its words.
    Request(String),
    /// The model sent no candidate.
    NoCandidate,
}

/// What an [`InferenceError`] holds.
pub enum InferenceErrorView {
    Request(Seq<char>),
    NoCandidate,
}

impl View for InferenceError {
    type V = InferenceErrorView;

    open spec fn view(&self) -> InferenceErrorView {
        match *self {
            InferenceError::Request(words) => InferenceErrorView::Request(words@),
            InferenceError::NoCandidate => InferenceErrorView::NoCandidate,
        }
    }
}

impl InferenceError {
    /// The error in words.
    pub fn message(&self) -> (r: String)
        ensures
            r@ == match self@ {
                InferenceErrorView::Request(words) => words,
                InferenceErrorView::NoCandidate => "模型没有返回任何候选结果"@,
            },
    {
        match self {
            InferenceError::Request(words) => words.clone(),
            InferenceError::NoCandidate => "模型没有返回任何候选结果".to_owned(),
        }
    }
}

fn refused(error: &OpenAIError) -> (r: InferenceError)
    ensures
        r matches InferenceError::Request(words) && words@ == words_of_fault(told_by(*error)),
{
    let (_, words) = classify(error);
    InferenceError::Request(words)
}

/// Asks the model what to do next.
pub struct InferenceOperation {
    model: String,
    system_prompt: Option<String>,
    tools: Vec<ChatCompletionTools>,
}

impl InferenceOperation {
    /// The name of the model.
    pub closed spec fn model(self) -> Seq<char> {
        self.model@
    }

    /// The system prompt, if there is one.
    pub closed spec fn system_prompt(self) -> Option<Seq<char>> {
        opt_text(self.system_prompt)
    }

    /// The tools on offer.
    pub closed spec fn tools(self) -> Seq<ChatCompletionTools> {
        self.tools@
    }

    /// Takes the model, the system prompt and the tools on offer.
    pub fn new(model: &str, system_prompt: Option<String>, tool_list: &Vec<ToolSpec>) -> (r: Result<
        Self,
        InferenceError,
    >)
        ensures
            r matches Ok(op) && {
                &&& op.model() == model@
                &&& op.system_prompt() == opt_text(system_prompt)
                &&& op.tools() == offered(tool_list@)
            },
    {
        let mut tools: Vec<ChatCompletionTools> = Vec::new();
        let mut i: usize = 0;
        while i < tool_list.len()
            invariant
                i <= tool_list@.len(),
                tools@ == offered(tool_list@).take(i as int),
            decreases tool_list@.len() - i,
        {
            match build_function(&tool_list[i]) {
                Ok(tool) => {
                    tools.push(tool);
                },
                Err(error) => {
                    return Err(refused(&error));
                },
            }
            i += 1;
            assert(tools@ =~= offered(tool_list@).take(i as int));
        }
        assert(tools@ =~= offered(tool_list@));
        Ok(InferenceOperation { model: model.to_owned(), system_prompt, tools })
    }

    /// The name of the operation.
    pub fn name(&self) -> (r: &'static str)
        ensures
            r@ == "inference"@,
    {
        "inference"
    }

    /// The request for this transcript.
    pub fn request(&self, ctx: &Context) -> (r: Result<CreateChatCompletionRequest, InferenceError>)
        ensures
            r matches Ok(request) && request == chat_request(
                self.model(),
                encoded_all(request_plan(self.system_prompt(), ctx@)),
                self.tools(),
            ),
    {
        let plan = plan_request(&self.system_prompt, ctx);
        let ghost all = requests_view(plan@);
        let mut messages: Vec<ChatCompletionRequestMessage> = Vec::new();
        let mut i: usize = 0;
        while i < plan.len()
            invariant
                i <= plan@.len(),
                all == requests_view(plan@),
                messages@ == encoded_all(all).take(i as int),
            decreases plan@.len() - i,
        {
            match encode(&plan[i]) {
                Ok(message) => {
                    messages.push(message);
                },
                Err(error) => {
                    return Err(refused(&error));
                },
            }
            i += 1;
            assert(messages@ =~= encoded_all(all).take(i as int));
        }
        assert(messages@ =~= encoded_all(all));
        match build_request(self.model.as_str(), messages, &self.tools) {
            Ok(request) => Ok(request),
            Err(error) => Err(refused(&error)),
        }
    }
}

/// A tool call in a reply.
#[derive(Debug)]
pub enum ReplyCall {
    /// A call of a function.
    Function(ToolCall),
    /// A call of any other kind.
    Custom,
}

/// A candidate in a reply.
#[derive(Debug)]
pub struct ReplyMessage {
    pub content: Option<String>,
    pub tool_calls: Option<Vec<ReplyCall>>,
}

/// The reply of the model, in plain values.
#[derive(Debug)]
pub struct Reply {
    pub usage: Option<TokenUsage>,
    pub choices: Vec<ReplyMessage>,
}

/// The function calls among the calls of a reply, in order.
pub open spec fn function_calls(calls: Seq<ReplyCall>) -> Seq<ToolCallView>
    decreases calls.len(),
{
    if calls.len() == 0 {
        Seq::empty()
    } else {
        match calls.last() {
            ReplyCall::Function(call) => function_calls(calls.drop_last()).push(call@),
            ReplyCall::Custom => function_calls(calls.drop_last()),
        }
    }
}

/// The candidate calls tools.
pub open spec fn calls_tools(choice: ReplyMessage) -> bool {
    choice.tool_calls matches Some(calls) && calls@.len() > 0
}

/// What the assistant is recorded to have said: the calls, where there are any, else the words.
pub open spec fn reply_body(choice: ReplyMessage, usage: Option<TokenUsage>) -> BodyView {
    if calls_tools(choice) {
        BodyView {
            tool_calls: Some(function_calls(choice.tool_calls->0@)),
            usage,
            ..plain_body(Role::Assistant, Seq::empty(), true, true)
        }
    } else {
        BodyView {
            usage,
            ..plain_body(
                Role::Assistant,
                match choice.content {
                    Some(content) => content@,
                    None => Seq::empty(),
                },
                true,
                true,
            )
        }
    }
}

/// The reply is taken: what the first candidate said goes on record, with the usage that was
/// reported, and the turn goes on only where it calls tools.
pub open spec fn reply_taken(result: Option<StepView>, reply: Reply) -> bool {
    &&& reply.choices@.len() > 0
    &&& result matches Some(step) && step.yield_turn == !calls_tools(reply.choices@[0])
        && appends(step.effects, reply_body(reply.choices@[0], reply.usage))
}

/// The one effect appends a message with this body.
pub open spec fn appends(effects: Seq<EffectView>, body: BodyView) -> bool {
    &&& effects.len() == 1
    &&& effects[0] matches EffectView::AppendMessage(message) && message.body == body
        && is_random_uuid(message.id)
}

/// An overflow of the context may be healed in the same turn: it is the first in a row, and there
/// is new evidence to compact on.
pub open spec fn self_healing(messages: Seq<MessageView>, kind: ErrorKind) -> bool {
    &&& kind == ErrorKind::ContextLengthExceeded
    &&& last_fault(messages) != Some(ErrorKind::ContextLengthExceeded)
    &&& new_evidence(messages)
}

/// The fault is put on record; the turn goes on only where the fault may heal.
pub open spec fn records_fault(
    result: Option<StepView>,
    messages: Seq<MessageView>,
    kind: ErrorKind,
    detail: Seq<char>,
) -> bool {
    result matches Some(step) && step.yield_turn == !self_healing(messages, kind) && appends(
        step.effects,
        error_body(kind, detail),
    )
}

fn append_one(message: Message, yield_turn: bool) -> (r: OperationResult)
    requires
        is_random_uuid(message@.id),
    ensures
        r@ matches Some(step) && step.yield_turn == yield_turn && appends(
            step.effects,
            message@.body,
        ),
{
    let effects = vec![Effect::AppendMessage(message)];
    if yield_turn {
        OperationResult::yielded_with(effects)
    } else {
        OperationResult::applied(effects)
    }
}

/// Puts an upstream fault on record. The turn ends, unless the fault may heal in the same turn.
pub fn record_fault(ctx: &Context, kind: ErrorKind, detail: &str) -> (r: OperationResult)
    ensures
        records_fault(r@, ctx@, kind, detail@),
{
    let again = match ctx.last_error_kind() {
        Some(ErrorKind::ContextLengthExceeded) => true,
        _ => false,
    };
    let healing = kind == ErrorKind::ContextLengthExceeded && !again
        && ctx.has_new_evidence_since_compaction();
    append_one(Message::error(kind, detail), !healing)
}

/// What becomes of an error of the client library: its cause and its words go on record.
pub fn on_error(ctx: &Context, error: &OpenAIError) -> (r: OperationResult)
    ensures
        records_fault(
            r@,
            ctx@,
            kind_of_fault(told_by(*error)),
            words_of_fault(told_by(*error)),
        ),
{
    let (kind, detail) = classify(error);
    record_fault(ctx, kind, detail.as_str())
}

/// What becomes of a reply: the first candidate counts. Calls keep the turn going, words end it.
pub fn on_reply(reply: Reply) -> (r: Result<OperationResult, InferenceError>)
    ensures
        match r {
            Ok(result) => {
                &&& reply.choices@.len() > 0
                &&& result@ matches Some(step) && step.yield_turn == !calls_tools(
                    reply.choices@[0],
                ) && appends(step.effects, reply_body(reply.choices@[0], reply.usage))
            },
            Err(error) => error is NoCandidate && reply.choices@.len() == 0,
        },
        r matches Ok(result) ==> reply_taken(result@, reply),
{
    if reply.choices.len() == 0 {
        return Err(InferenceError::NoCandidate);
    }
    let choice = &reply.choices[0];
    if let Some(openai_calls) = &choice.tool_calls {
        if openai_calls.len() > 0 {
            let mut calls: Vec<ToolCall> = Vec::new();
            let mut i: usize = 0;
            assert(openai_calls@.take(0) =~= Seq::empty());
            assert(calls_view(calls@) =~= Seq::empty());
            while i < openai_calls.len()
                invariant
                    i <= openai_calls@.len(),
                    calls_view(calls@) == function_calls(openai_calls@.take(i as int)),
                decreases openai_calls@.len() - i,
            {
                let ghost before = calls_view(calls@);
                proof {
                    assert(openai_calls@.take(i + 1).drop_last() =~= openai_calls@.take(i as int));
                }
                match &openai_calls[i] {
                    ReplyCall::Function(call) => {
                        calls.push(call.clone());
                        assert(calls_view(calls@) =~= before.push(call@));
                    },
                    ReplyCall::Custom => {},
                }
                i += 1;
            }
            assert(openai_calls@.take(openai_calls@.len() as int) =~= openai_calls@);
            let mut message = Message::assistant_tool_call(calls);
            if let Some(usage) = reply.usage {
                message = message.with_usage(usage);
            }
            return Ok(append_one(message, false));
        }
    }
    let content = match &choice.content {
        Some(content) => content.clone(),
        None => String::new(),
    };
    let mut message = Message::assistant(content.as_str());
    if let Some(usage) = reply.usage {
        message = message.with_usage(usage);
    }
    Ok(append_one(message, true))
}

} // verus!
