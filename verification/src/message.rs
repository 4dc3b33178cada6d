//! The transcript: messages, who sees them, and what can be read off them.

use crate::ident::fresh_id;
use crate::provider_error::ErrorKind;
use crate::text::{begins_with, ends_in, ends_with, same_text, starts_with, to_decimal};
use vstd::prelude::*;
use vstd::string::*;

verus! {

/// Who speaks in a message.
#[derive(Debug, Clone, Copy, PartialEq, Eq, Structural)]
pub enum Role {
    System,
    User,
    Assistant,
    Tool,
}

/// A tool call declared by the assistant.
#[derive(Debug, PartialEq, Eq)]
pub struct ToolCall {
    pub id: String,
    pub name: String,
    pub arguments: String,
}

/// What a [`ToolCall`] holds.
pub struct ToolCallView {
    pub id: Seq<char>,
    pub name: Seq<char>,
    pub arguments: Seq<char>,
}

impl View for ToolCall {
    type V = ToolCallView;

    open spec fn view(&self) -> ToolCallView {
        ToolCallView { id: self.id@, name: self.name@, arguments: self.arguments@ }
    }
}

impl Clone for ToolCall {
    fn clone(&self) -> (r: Self)
        ensures
            r@ == self@,
    {
        ToolCall {
            id: self.id.clone(),
            name: self.name.clone(),
            arguments: self.arguments.clone(),
        }
    }
}

/// What a row of tool calls holds.
pub open spec fn calls_view(calls: Seq<ToolCall>) -> Seq<ToolCallView> {
    calls.map_values(|c: ToolCall| c@)
}

/// The token usage that the upstream reported for one request.
#[derive(Debug, Clone, Copy, PartialEq, Eq, Structural)]
pub struct TokenUsage {
    pub prompt: u32,
    pub completion: u32,
    pub total: u32,
}

impl Default for TokenUsage {
    fn default() -> (r: Self)
        ensures
            r.prompt == 0,
            r.completion == 0,
            r.total == 0,
    {
        TokenUsage { prompt: 0, completion: 0, total: 0 }
    }
}

impl TokenUsage {
    /// Adds another usage, count by count.
    pub fn accumulate(&mut self, other: TokenUsage)
        requires
            old(self).prompt + other.prompt <= u32::MAX,
            old(self).completion + other.completion <= u32::MAX,
            old(self).total + other.total <= u32::MAX,
        ensures
            final(self).prompt == old(self).prompt + other.prompt,
            final(self).completion == old(self).completion + other.completion,
            final(self).total == old(self).total + other.total,
    {
        self.prompt += other.prompt;
        self.completion += other.completion;
        self.total += other.total
    }
}

/// One entry of the transcript.
///
/// Whether the human and whether the model sees it are independent of each other.
#[derive(Debug)]
pub struct Message {
    pub id: String,
    pub role: Role,
    pub content: String,
    pub tool_calls: Option<Vec<ToolCall>>,
    pub tool_call_id: Option<String>,
    pub usage: Option<TokenUsage>,
    /// The cause of an upstream fault: `Some` where the message records a failure.
    pub error_kind: Option<ErrorKind>,
    pub user_visible: bool,
    pub agent_visible: bool,
}

/// What a [`Message`] says, its identifier aside.
pub struct BodyView {
    pub role: Role,
    pub content: Seq<char>,
    pub tool_calls: Option<Seq<ToolCallView>>,
    pub tool_call_id: Option<Seq<char>>,
    pub usage: Option<TokenUsage>,
    pub error_kind: Option<ErrorKind>,
    pub user_visible: bool,
    pub agent_visible: bool,
}

/// What a [`Message`] holds.
pub struct MessageView {
    pub id: Seq<char>,
    pub body: BodyView,
}

impl View for Message {
    type V = MessageView;

    open spec fn view(&self) -> MessageView {
        MessageView {
            id: self.id@,
            body: BodyView {
                role: self.role,
                content: self.content@,
                tool_calls: match self.tool_calls {
                    Some(calls) => Some(calls_view(calls@)),
                    None => None,
                },
                tool_call_id: match self.tool_call_id {
                    Some(id) => Some(id@),
                    None => None,
                },
                usage: self.usage,
                error_kind: self.error_kind,
                user_visible: self.user_visible,
                agent_visible: self.agent_visible,
            },
        }
    }
}

/// What a row of messages holds.
pub open spec fn messages_view(messages: Seq<Message>) -> Seq<MessageView> {
    messages.map_values(|m: Message| m@)
}

/// A copy of a row of tool calls.
pub fn clone_calls(calls: &Vec<ToolCall>) -> (r: Vec<ToolCall>)
    ensures
        calls_view(r@) == calls_view(calls@),
{
    let r = calls.clone();
    assert(calls_view(r@) =~= calls_view(calls@));
    r
}

/// A copy of a row of messages.
pub fn clone_messages(messages: &Vec<Message>) -> (r: Vec<Message>)
    ensures
        messages_view(r@) == messages_view(messages@),
{
    let r = messages.clone();
    assert(messages_view(r@) =~= messages_view(messages@));
    r
}

impl Clone for Message {
    fn clone(&self) -> (r: Self)
        ensures
            r@ == self@,
    {
        Message {
            id: self.id.clone(),
            role: self.role,
            content: self.content.clone(),
            tool_calls: match &self.tool_calls {
                Some(calls) => Some(clone_calls(calls)),
                None => None,
            },
            tool_call_id: self.tool_call_id.clone(),
            usage: self.usage,
            error_kind: self.error_kind,
            user_visible: self.user_visible,
            agent_visible: self.agent_visible,
        }
    }
}

/// A plain message: a role, a text, and who sees it.
pub open spec fn plain_body(
    role: Role,
    content: Seq<char>,
    user_visible: bool,
    agent_visible: bool,
) -> BodyView {
    BodyView {
        role,
        content,
        tool_calls: None,
        tool_call_id: None,
        usage: None,
        error_kind: None,
        user_visible,
        agent_visible,
    }
}

/// The instruction that tells the model how many messages were taken out of its view.
pub open spec fn marker_text(dropped: nat) -> Seq<char> {
    "（系统提示：为腾出上下文，更早的 "@ + crate::text::decimal(dropped)
        + " 条对话已从上下文中移除，你看不到其内容了。如需细节，请重新读取相关文件，或向人类确认。）"@
}

impl BodyView {
    /// A turn that a human typed: prompts and decisions carry the same role, but a human does not
    /// see them.
    pub open spec fn is_human_turn(self) -> bool {
        self.role == Role::User && self.user_visible
    }

    /// A mark that earlier messages were taken out of the model's view.
    pub open spec fn is_compaction_marker(self) -> bool {
        self.role == Role::User && self.agent_visible && !self.user_visible
    }
}

impl Message {
    fn plain(role: Role, content: &str, user_visible: bool, agent_visible: bool) -> (r: Self)
        ensures
            r@.body == plain_body(role, content@, user_visible, agent_visible),
            crate::ident::is_random_uuid(r@.id),
    {
        Message {
            id: fresh_id(),
            role,
            content: content.to_owned(),
            tool_calls: None,
            tool_call_id: None,
            usage: None,
            error_kind: None,
            user_visible,
            agent_visible,
        }
    }

    /// What a human says.
    pub fn user(content: &str) -> (r: Self)
        ensures
            r@.body == plain_body(Role::User, content@, true, true),
            crate::ident::is_random_uuid(r@.id),
    {
        Message::plain(Role::User, content, true, true)
    }

    /// What the assistant says.
    pub fn assistant(content: &str) -> (r: Self)
        ensures
            r@.body == plain_body(Role::Assistant, content@, true, true),
            crate::ident::is_random_uuid(r@.id),
    {
        Message::plain(Role::Assistant, content, true, true)
    }

    /// The assistant declares tool calls.
    pub fn assistant_tool_call(tool_calls: Vec<ToolCall>) -> (r: Self)
        ensures
            r@.body == (BodyView {
                tool_calls: Some(calls_view(tool_calls@)),
                ..plain_body(Role::Assistant, Seq::empty(), true, true)
            }),
            crate::ident::is_random_uuid(r@.id),
    {
        let mut message = Message::plain(Role::Assistant, "", true, true);
        proof {
            reveal_strlit("");
            assert(""@ =~= Seq::<char>::empty());
        }
        message.tool_calls = Some(tool_calls);
        message
    }

    /// The result of the tool call `call_id`.
    pub fn tool_response(call_id: &str, content: &str) -> (r: Self)
        ensures
            r@.body == tool_response_body(call_id@, content@),
            crate::ident::is_random_uuid(r@.id),
    {
        let mut message = Message::plain(Role::Tool, content, true, true);
        message.tool_call_id = Some(call_id.to_owned());
        message
    }

    /// A notice for the human alone.
    pub fn user_only_notification(content: &str) -> (r: Self)
        ensures
            r@.body == plain_body(Role::Assistant, content@, true, false),
            crate::ident::is_random_uuid(r@.id),
    {
        Message::plain(Role::Assistant, content, true, false)
    }

    /// A prompt for the model alone.
    pub fn agent_only_instruction(content: &str) -> (r: Self)
        ensures
            r@.body == plain_body(Role::User, content@, false, true),
            crate::ident::is_random_uuid(r@.id),
    {
        Message::plain(Role::User, content, false, true)
    }

    /// The human's answer to a request for approval: kept as it was typed, seen by neither side.
    pub fn approval_answer(content: &str) -> (r: Self)
        ensures
            r@.body == plain_body(Role::User, content@, false, false),
            crate::ident::is_random_uuid(r@.id),
    {
        Message::plain(Role::User, content, false, false)
    }

    /// A record that risky calls wait for the human's decision: seen by neither side.
    pub fn approval_pending() -> (r: Self)
        ensures
            r@.body == plain_body(Role::Assistant, "awaiting human approval"@, false, false),
            crate::ident::is_random_uuid(r@.id),
    {
        Message::plain(Role::Assistant, "awaiting human approval", false, false)
    }

    /// A record of an upstream fault, with the upstream's own words: for the human alone.
    pub fn error(kind: ErrorKind, detail: &str) -> (r: Self)
        ensures
            r@.body == error_body(kind, detail@),
            crate::ident::is_random_uuid(r@.id),
    {
        let mut message = Message::plain(Role::Assistant, detail, true, false);
        message.error_kind = Some(kind);
        message
    }

    /// Did a human type this turn?
    pub fn is_human_turn(&self) -> (r: bool)
        ensures
            r == self@.body.is_human_turn(),
    {
        self.role == Role::User && self.user_visible
    }

    /// The mark that `dropped` messages were taken out of the model's view.
    pub fn compaction_marker(dropped: usize) -> (r: Self)
        ensures
            r@.body == marker_body(dropped as nat),
            crate::ident::is_random_uuid(r@.id),
    {
        let mut content = String::new();
        content.append("（系统提示：为腾出上下文，更早的 ");
        content.append(to_decimal(dropped as u64).as_str());
        content.append(
            " 条对话已从上下文中移除，你看不到其内容了。如需细节，请重新读取相关文件，或向人类确认。）",
        );
        assert(content@ =~= marker_text(dropped as nat));
        Message::agent_only_instruction(content.as_str())
    }

    /// Is this the mark of a compaction?
    pub fn is_compaction_marker(&self) -> (r: bool)
        ensures
            r == self@.body.is_compaction_marker(),
    {
        self.role == Role::User && self.agent_visible && !self.user_visible
    }

    /// The same message with the usage that the upstream reported for it.
    pub fn with_usage(self, usage: TokenUsage) -> (r: Self)
        ensures
            r@ == (MessageView {
                body: BodyView { usage: Some(usage), ..self@.body },
                ..self@
            }),
    {
        let mut message = self;
        message.usage = Some(usage);
        message
    }
}

/// The result of a tool call.
pub open spec fn tool_response_body(call_id: Seq<char>, content: Seq<char>) -> BodyView {
    BodyView { tool_call_id: Some(call_id), ..plain_body(Role::Tool, content, true, true) }
}

/// The record of an upstream fault.
pub open spec fn error_body(kind: ErrorKind, detail: Seq<char>) -> BodyView {
    BodyView { error_kind: Some(kind), ..plain_body(Role::Assistant, detail, true, false) }
}

/// The mark of a compaction.
pub open spec fn marker_body(dropped: nat) -> BodyView {
    plain_body(Role::User, marker_text(dropped), false, true)
}

/// The transcript of a conversation.
#[derive(Debug)]
pub struct Context {
    pub messages: Vec<Message>,
}

impl View for Context {
    type V = Seq<MessageView>;

    open spec fn view(&self) -> Seq<MessageView> {
        messages_view(self.messages@)
    }
}

impl Clone for Context {
    fn clone(&self) -> (r: Self)
        ensures
            r@ == self@,
    {
        Context { messages: clone_messages(&self.messages) }
    }
}

impl Default for Context {
    fn default() -> (r: Self)
        ensures
            r@ == Seq::<MessageView>::empty(),
    {
        Context::new()
    }
}

/// The messages that the model sees.
pub open spec fn agent_view(messages: Seq<MessageView>) -> Seq<MessageView> {
    messages.filter(|m: MessageView| m.body.agent_visible)
}

/// The messages that the human sees.
pub open spec fn user_view(messages: Seq<MessageView>) -> Seq<MessageView> {
    messages.filter(|m: MessageView| m.body.user_visible)
}

/// What a row of borrowed messages holds.
pub open spec fn refs_view(messages: Seq<&Message>) -> Seq<MessageView> {
    messages.map_values(|m: &Message| m@)
}

impl Context {
    /// An empty transcript.
    pub fn new() -> (r: Self)
        ensures
            r@ == Seq::<MessageView>::empty(),
    {
        let r = Context { messages: Vec::new() };
        assert(r@ =~= Seq::<MessageView>::empty());
        r
    }

    /// Adds a message at the end.
    pub fn push(&mut self, message: Message)
        ensures
            final(self)@ == old(self)@.push(message@),
    {
        self.messages.push(message);
        assert(self@ =~= old(self)@.push(message@));
    }

    /// The messages that the model sees, in order.
    pub fn for_agent(&self) -> (r: Vec<&Message>)
        ensures
            refs_view(r@) == agent_view(self@),
    {
        let mut r: Vec<&Message> = Vec::new();
        let ghost p = |m: MessageView| m.body.agent_visible;
        let mut i: usize = 0;
        assert(self@.take(0) =~= Seq::empty());
        assert(refs_view(r@) =~= Seq::empty());
        while i < self.messages.len()
            invariant
                i <= self.messages@.len(),
                p == (|m: MessageView| m.body.agent_visible),
                refs_view(r@) == self@.take(i as int).filter(p),
            decreases self.messages@.len() - i,
        {
            let message = &self.messages[i];
            let ghost before = r@;
            if message.agent_visible {
                r.push(message);
                assert(refs_view(r@) =~= refs_view(before).push(message@));
            }
            proof {
                assert(self@.take(i + 1) =~= self@.take(i as int).push(message@));
                self@.take(i as int).lemma_filter_push(message@, p);
            }
            i += 1;
        }
        assert(self@.take(self.messages@.len() as int) =~= self@);
        r
    }

    /// The messages that the human sees, in order.
    pub fn for_user(&self) -> (r: Vec<&Message>)
        ensures
            refs_view(r@) == user_view(self@),
    {
        let mut r: Vec<&Message> = Vec::new();
        let ghost p = |m: MessageView| m.body.user_visible;
        let mut i: usize = 0;
        assert(self@.take(0) =~= Seq::empty());
        assert(refs_view(r@) =~= Seq::empty());
        while i < self.messages.len()
            invariant
                i <= self.messages@.len(),
                p == (|m: MessageView| m.body.user_visible),
                refs_view(r@) == self@.take(i as int).filter(p),
            decreases self.messages@.len() - i,
        {
            let message = &self.messages[i];
            let ghost before = r@;
            if message.user_visible {
                r.push(message);
                assert(refs_view(r@) =~= refs_view(before).push(message@));
            }
            proof {
                assert(self@.take(i + 1) =~= self@.take(i as int).push(message@));
                self@.take(i as int).lemma_filter_push(message@, p);
            }
            i += 1;
        }
        assert(self@.take(self.messages@.len() as int) =~= self@);
        r
    }
}

/// A tool result for the call `id` stands in the transcript.
pub open spec fn answered(messages: Seq<MessageView>, id: Seq<char>) -> bool {
    exists|i: int|
        0 <= i < messages.len() && (#[trigger] messages[i]).body.role == Role::Tool
            && messages[i].body.tool_call_id == Some(id)
}

/// The calls that one message declares as the assistant.
pub open spec fn calls_of(message: MessageView) -> Seq<ToolCallView> {
    match message.body.tool_calls {
        Some(calls) if message.body.role == Role::Assistant => calls,
        _ => Seq::empty(),
    }
}

/// The calls that the assistant declared, in order.
pub open spec fn declared_calls(messages: Seq<MessageView>) -> Seq<ToolCallView>
    decreases messages.len(),
{
    if messages.len() == 0 {
        Seq::empty()
    } else {
        declared_calls(messages.drop_last()) + calls_of(messages.last())
    }
}

/// The declared calls, in order, whose result does not stand in the transcript.
pub open spec fn pending_calls(messages: Seq<MessageView>) -> Seq<ToolCallView> {
    declared_calls(messages).filter(|c: ToolCallView| !answered(messages, c.id))
}

/// How the question begins whether risky calls may run.
pub open spec fn question_head() -> Seq<char> {
    "⚠️  检测到高危操作，已暂停执行，等待你裁决：\n"@
}

/// How the question ends whether risky calls may run.
pub open spec fn question_tail() -> Seq<char> {
    "\n输入 y 允许执行；其它任意输入均视为拒绝"@
}

impl BodyView {
    /// A record that somebody waits for the human's decision: the assistant wrote it, and neither
    /// the human nor the model sees it.
    pub open spec fn is_pending_record(self) -> bool {
        self.role == Role::Assistant && !self.user_visible && !self.agent_visible
    }

    /// The question whether risky calls may run: for the human alone, in the wording of that
    /// question. Other notices are none, nor are faults.
    pub open spec fn is_question(self) -> bool {
        &&& self.role == Role::Assistant
        &&& self.user_visible
        &&& !self.agent_visible
        &&& self.error_kind is None
        &&& begins_with(self.content, question_head())
        &&& ends_in(self.content, question_tail())
    }
}

/// The last message waits for the human to answer: it is a record that neither side sees.
pub open spec fn awaiting(messages: Seq<MessageView>) -> bool {
    messages.len() > 0 && messages.last().body.is_pending_record()
}

/// The next input answers: the last message is a record of that, or the question itself.
pub open spec fn answer_due(messages: Seq<MessageView>) -> bool {
    awaiting(messages) || (messages.len() > 0 && messages.last().body.is_question())
}

/// The cause of the fault that the last message records, if it records one.
pub open spec fn last_fault(messages: Seq<MessageView>) -> Option<ErrorKind> {
    if messages.len() > 0 {
        messages.last().body.error_kind
    } else {
        None
    }
}

/// A fact that no earlier compaction can have been based on: a reported usage or a human turn.
pub open spec fn is_new_fact(message: MessageView) -> bool {
    message.body.usage is Some || message.body.is_human_turn()
}

/// No compaction left its mark at position `from` or later.
pub open spec fn unmarked_from(messages: Seq<MessageView>, from: int) -> bool {
    forall|j: int|
        from <= j < messages.len() ==> !(#[trigger] messages[j]).body.is_compaction_marker()
}

/// There was no compaction, or a new fact stands after the mark of the last one.
pub open spec fn new_evidence(messages: Seq<MessageView>) -> bool {
    ||| unmarked_from(messages, 0)
    ||| exists|k: int|
        0 <= k < messages.len() && is_new_fact(#[trigger] messages[k]) && unmarked_from(messages, k)
}

/// The sum of one count over the reported usages.
pub open spec fn usage_sum(messages: Seq<MessageView>, count: spec_fn(TokenUsage) -> nat) -> nat
    decreases messages.len(),
{
    if messages.len() == 0 {
        0
    } else {
        usage_sum(messages.drop_last(), count) + match messages.last().body.usage {
            Some(usage) => count(usage),
            None => 0,
        }
    }
}

/// All prompt tokens reported.
pub open spec fn prompt_sum(messages: Seq<MessageView>) -> nat {
    usage_sum(messages, |u: TokenUsage| u.prompt as nat)
}

/// All completion tokens reported.
pub open spec fn completion_sum(messages: Seq<MessageView>) -> nat {
    usage_sum(messages, |u: TokenUsage| u.completion as nat)
}

/// All tokens reported.
pub open spec fn total_sum(messages: Seq<MessageView>) -> nat {
    usage_sum(messages, |u: TokenUsage| u.total as nat)
}

/// The three sums fit the counters.
pub open spec fn usage_fits(messages: Seq<MessageView>) -> bool {
    &&& prompt_sum(messages) <= u32::MAX
    &&& completion_sum(messages) <= u32::MAX
    &&& total_sum(messages) <= u32::MAX
}

/// The usage reported last.
pub open spec fn last_usage(messages: Seq<MessageView>) -> Option<TokenUsage>
    decreases messages.len(),
{
    if messages.len() == 0 {
        None
    } else if messages.last().body.usage is Some {
        messages.last().body.usage
    } else {
        last_usage(messages.drop_last())
    }
}

/// The message at `k` reports a usage, and no message behind it does.
pub open spec fn last_report_at(messages: Seq<MessageView>, k: int) -> bool {
    &&& messages[k].body.usage is Some
    &&& forall|j: int| k < j < messages.len() ==> (#[trigger] messages[j]).body.usage is None
}

/// The usage reported last is that of the last message that reports one, whatever the messages
/// before it report; without a report there is none.
pub proof fn law_the_last_report_is_the_last_usage(messages: Seq<MessageView>)
    ensures
        forall|k: int|
            0 <= k < messages.len() && last_report_at(messages, k) ==> last_usage(messages) == (
            #[trigger] messages[k]).body.usage,
        last_usage(messages) is None <==> forall|k: int|
            0 <= k < messages.len() ==> (#[trigger] messages[k]).body.usage is None,
    decreases messages.len(),
{
    if messages.len() > 0 {
        let rest = messages.drop_last();
        let n = messages.len() - 1;
        law_the_last_report_is_the_last_usage(rest);
        assert forall|k: int|
            0 <= k < messages.len() && last_report_at(messages, k) implies last_usage(messages) == (
        #[trigger] messages[k]).body.usage by {
            if k < n {
                assert(messages[n].body.usage is None);
                assert forall|j: int| k < j < n implies (#[trigger] rest[j]).body.usage is None by {
                    assert(rest[j] == messages[j]);
                }
                assert(last_report_at(rest, k));
                assert(rest[k] == messages[k]);
            }
        }
        if last_usage(messages) is None {
            assert forall|k: int| 0 <= k < messages.len() implies (
            #[trigger] messages[k]).body.usage is None by {
                if k < n {
                    assert(rest[k] == messages[k]);
                }
            }
        } else if messages[n].body.usage is None {
            let k = choose|k: int| 0 <= k < n && (#[trigger] rest[k]).body.usage is Some;
            assert(rest[k] == messages[k]);
        }
    }
}

proof fn lemma_usage_sum_prefix(
    messages: Seq<MessageView>,
    count: spec_fn(TokenUsage) -> nat,
    k: int,
)
    requires
        0 <= k <= messages.len(),
    ensures
        usage_sum(messages.take(k), count) <= usage_sum(messages, count),
    decreases messages.len(),
{
    if k == messages.len() {
        assert(messages.take(k) =~= messages);
    } else {
        assert(messages.drop_last().take(k) =~= messages.take(k));
        lemma_usage_sum_prefix(messages.drop_last(), count, k);
    }
}

impl Context {
    /// Does a tool result for the call `id` stand in the transcript from position `from` on?
    pub fn is_answered_from(&self, from: usize, id: &str) -> (r: bool)
        requires
            from <= self@.len(),
        ensures
            r == answered(self@.skip(from as int), id@),
    {
        let ghost rest = self@.skip(from as int);
        let mut i: usize = from;
        while i < self.messages.len()
            invariant
                from <= i <= self.messages@.len(),
                rest == self@.skip(from as int),
                forall|k: int|
                    0 <= k < i - from ==> !((#[trigger] rest[k]).body.role == Role::Tool
                        && rest[k].body.tool_call_id == Some(id@)),
            decreases self.messages@.len() - i,
        {
            let message = &self.messages[i];
            assert(rest[i - from] == message@);
            if message.role == Role::Tool {
                if let Some(call_id) = &message.tool_call_id {
                    if same_text(call_id.as_str(), id) {
                        return true;
                    }
                }
            }
            i += 1;
        }
        false
    }

    /// The calls that were declared and have no result yet.
    pub fn pending_tool_calls(&self) -> (r: Vec<ToolCall>)
        ensures
            calls_view(r@) == pending_calls(self@),
    {
        let ghost p = |c: ToolCallView| !answered(self@, c.id);
        let mut r: Vec<ToolCall> = Vec::new();
        let mut i: usize = 0;
        assert(self@.take(0) =~= Seq::empty());
        assert(declared_calls(self@.take(0)).filter(p) =~= Seq::empty());
        assert(calls_view(r@) =~= Seq::empty());
        while i < self.messages.len()
            invariant
                i <= self.messages@.len(),
                p == (|c: ToolCallView| !answered(self@, c.id)),
                calls_view(r@) == declared_calls(self@.take(i as int)).filter(p),
            decreases self.messages@.len() - i,
        {
            let message = &self.messages[i];
            let ghost seen = declared_calls(self@.take(i as int));
            let ghost here = calls_of(message@);
            proof {
                assert(self@.take(i + 1).drop_last() =~= self@.take(i as int));
                assert(self@.take(i + 1).last() == message@);
                assert(seen + here.take(0) =~= seen);
            }
            if message.role == Role::Assistant {
                if let Some(calls) = &message.tool_calls {
                    let mut j: usize = 0;
                    while j < calls.len()
                        invariant
                            j <= calls@.len(),
                            here == calls_view(calls@),
                            p == (|c: ToolCallView| !answered(self@, c.id)),
                            calls_view(r@) == (seen + here.take(j as int)).filter(p),
                        decreases calls@.len() - j,
                    {
                        let call = &calls[j];
                        let ghost before = r@;
                        assert(self@.skip(0) =~= self@);
                        if !self.is_answered_from(0, call.id.as_str()) {
                            r.push(call.clone());
                            assert(calls_view(r@) =~= calls_view(before).push(call@));
                        }
                        proof {
                            assert(seen + here.take(j + 1) =~= (seen + here.take(j as int)).push(
                                call@,
                            ));
                            (seen + here.take(j as int)).lemma_filter_push(call@, p);
                        }
                        j += 1;
                    }
                }
            }
            assert(here.take(here.len() as int) =~= here);
            i += 1;
        }
        assert(self@.take(self.messages@.len() as int) =~= self@);
        r
    }

    /// Does the last message wait for the human to answer, as a record that neither side sees?
    pub fn awaiting_human_input(&self) -> (r: bool)
        ensures
            r == awaiting(self@),
    {
        let n: usize = self.messages.len();
        if n == 0 {
            return false;
        }
        let last = &self.messages[n - 1];
        assert(self@.last() == last@);
        last.role == Role::Assistant && !last.user_visible && !last.agent_visible
    }

    /// Does the next input answer: is the last message a record of that, or the question itself?
    pub fn is_answer_due(&self) -> (r: bool)
        ensures
            r == answer_due(self@),
    {
        if self.awaiting_human_input() {
            return true;
        }
        let n: usize = self.messages.len();
        if n == 0 {
            return false;
        }
        let last = &self.messages[n - 1];
        assert(self@.last() == last@);
        last.role == Role::Assistant && last.user_visible && !last.agent_visible
            && last.error_kind.is_none() && starts_with(
            last.content.as_str(),
            "⚠️  检测到高危操作，已暂停执行，等待你裁决：\n",
        ) && ends_with(last.content.as_str(), "\n输入 y 允许执行；其它任意输入均视为拒绝")
    }

    /// The cause of the fault that the last message records, if it records one.
    pub fn last_error_kind(&self) -> (r: Option<ErrorKind>)
        ensures
            r == last_fault(self@),
    {
        let n: usize = self.messages.len();
        if n == 0 {
            return None;
        }
        let last = &self.messages[n - 1];
        assert(self@.last() == last@);
        last.error_kind
    }

    /// May the transcript be compacted again: was there something new since the last compaction?
    pub fn has_new_evidence_since_compaction(&self) -> (r: bool)
        ensures
            r == new_evidence(self@),
    {
        let mut fact = false;
        let mut i: usize = self.messages.len();
        while i > 0
            invariant
                i <= self.messages@.len(),
                unmarked_from(self@, i as int),
                fact == (exists|k: int| i <= k < self@.len() && is_new_fact(#[trigger] self@[k])),
            decreases i,
        {
            let message = &self.messages[i - 1];
            assert(self@[i - 1] == message@);
            if message.is_compaction_marker() {
                proof {
                    if fact {
                        let k = choose|k: int|
                            i <= k < self@.len() && is_new_fact(#[trigger] self@[k]);
                        assert(unmarked_from(self@, k));
                    }
                }
                return fact;
            }
            if message.usage.is_some() || message.is_human_turn() {
                fact = true;
            }
            i -= 1;
        }
        true
    }

    /// The sums of the reported usages.
    pub fn total_usage(&self) -> (r: TokenUsage)
        requires
            usage_fits(self@),
        ensures
            r.prompt == prompt_sum(self@),
            r.completion == completion_sum(self@),
            r.total == total_sum(self@),
    {
        match self.checked_total_usage() {
            Some(sum) => sum,
            None => TokenUsage::default(),
        }
    }

    /// The sums of the reported usages; `None` where one of them exceeds its counter.
    pub fn checked_total_usage(&self) -> (r: Option<TokenUsage>)
        ensures
            match r {
                Some(sum) => {
                    &&& sum.prompt == prompt_sum(self@)
                    &&& sum.completion == completion_sum(self@)
                    &&& sum.total == total_sum(self@)
                },
                None => !usage_fits(self@),
            },
    {
        let mut sum = TokenUsage::default();
        let mut i: usize = 0;
        assert(self@.take(0) =~= Seq::empty());
        while i < self.messages.len()
            invariant
                i <= self.messages@.len(),
                sum.prompt == prompt_sum(self@.take(i as int)),
                sum.completion == completion_sum(self@.take(i as int)),
                sum.total == total_sum(self@.take(i as int)),
            decreases self.messages@.len() - i,
        {
            let message = &self.messages[i];
            proof {
                let next = self@.take(i + 1);
                assert(next.drop_last() =~= self@.take(i as int));
                assert(next.last() == message@);
                lemma_usage_sum_prefix(self@, |u: TokenUsage| u.prompt as nat, i + 1);
                lemma_usage_sum_prefix(self@, |u: TokenUsage| u.completion as nat, i + 1);
                lemma_usage_sum_prefix(self@, |u: TokenUsage| u.total as nat, i + 1);
            }
            if let Some(usage) = message.usage {
                if sum.prompt > u32::MAX - usage.prompt || sum.completion > u32::MAX
                    - usage.completion || sum.total > u32::MAX - usage.total {
                    return None;
                }
                sum.accumulate(usage);
            }
            i += 1;
        }
        assert(self@.take(self.messages@.len() as int) =~= self@);
        Some(sum)
    }

    /// The prompt tokens of the usage reported last.
    pub fn last_prompt_tokens(&self) -> (r: Option<u32>)
        ensures
            r == match last_usage(self@) {
                Some(usage) => Some(usage.prompt),
                None => None,
            },
            forall|k: int|
                0 <= k < self@.len() && last_report_at(self@, k) ==> r == Some(
                    ((#[trigger] self@[k]).body.usage->0).prompt,
                ),
            r is None <==> forall|k: int|
                0 <= k < self@.len() ==> (#[trigger] self@[k]).body.usage is None,
    {
        proof {
            law_the_last_report_is_the_last_usage(self@);
        }
        let mut i: usize = self.messages.len();
        assert(self@.take(i as int) =~= self@);
        while i > 0
            invariant
                i <= self.messages@.len(),
                forall|k: int|
                    0 <= k < self@.len() && last_report_at(self@, k) ==> last_usage(self@) == (
                    #[trigger] self@[k]).body.usage,
                last_usage(self@) is None <==> forall|k: int|
                    0 <= k < self@.len() ==> (#[trigger] self@[k]).body.usage is None,
                last_usage(self@) == last_usage(self@.take(i as int)),
            decreases i,
        {
            let message = &self.messages[i - 1];
            assert(self@.take(i as int).last() == message@);
            assert(self@.take(i as int).drop_last() =~= self@.take(i - 1));
            if let Some(usage) = message.usage {
                return Some(usage.prompt);
            }
            i -= 1;
        }
        None
    }
}

} // verus!
