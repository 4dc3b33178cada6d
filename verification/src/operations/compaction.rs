//! Compaction: the middle of the model's view goes, the head and the tail stay.
//!
//! What only the human sees, records that neither side sees, and fault records stay in place. A
//! cut never starts at a tool result, so no result loses its call. One and the same evidence is
//! used only once.

use crate::ident::is_random_uuid;
use crate::message::{
    clone_messages, last_fault, last_usage, marker_body, messages_view, new_evidence,
    pending_calls, Context, Message, MessageView, Role,
};
use crate::pairing::{pairing_ok, tool_pairing_intact};
use crate::pipeline::{Effect, EffectView, OperationResult, StepView};
use crate::provider_error::ErrorKind;
use crate::search::{last_in, lemma_last_in};
use crate::text::{parse_unsigned, parsed_unsigned};
use vstd::prelude::*;

verus! {

/// The positions of the messages that the model sees, in order.
pub open spec fn visible_positions(messages: Seq<MessageView>) -> Seq<int>
    decreases messages.len(),
{
    if messages.len() == 0 {
        Seq::empty()
    } else if messages.last().body.agent_visible {
        visible_positions(messages.drop_last()).push(messages.len() - 1)
    } else {
        visible_positions(messages.drop_last())
    }
}

/// The message that the model sees in place `i` is a human turn.
pub open spec fn human_at(messages: Seq<MessageView>, i: int) -> bool {
    messages[visible_positions(messages)[i]].body.is_human_turn()
}

/// The message that the model sees in place `i` is no tool result.
pub open spec fn not_tool_at(messages: Seq<MessageView>, i: int) -> bool {
    messages[visible_positions(messages)[i]].body.role != Role::Tool
}

/// How many messages at the head of the model's view stay: up to the last human turn among the
/// first `keep_head`.
pub open spec fn head_len(messages: Seq<MessageView>, keep_head: int) -> int {
    match last_in(0, keep_head - 1, |i: int| human_at(messages, i)) {
        Some(i) => i + 1,
        None => 0,
    }
}

/// The place in the model's view at which the tail starts that stays: after the head, with at
/// least `keep_tail` messages from there on, at the last human turn, or, without one, at the last
/// message that is no tool result.
pub open spec fn tail_start(
    messages: Seq<MessageView>,
    keep_head: int,
    keep_tail: int,
) -> Option<int> {
    let lo = head_len(messages, keep_head) + 1;
    let hi = visible_positions(messages).len() - keep_tail;
    match last_in(lo, hi, |i: int| human_at(messages, i)) {
        Some(i) => Some(i),
        None => last_in(lo, hi, |i: int| not_tool_at(messages, i)),
    }
}

/// Messages between the head and the tail that go: the model sees them and they are no system
/// messages.
pub open spec fn droppable(message: MessageView) -> bool {
    message.body.agent_visible && message.body.role != Role::System
}

/// The transcript without what is droppable from position `from` up to `to`.
pub open spec fn without(messages: Seq<MessageView>, from: int, to: int) -> Seq<MessageView> {
    messages.take(from) + messages.subrange(from, to).filter(|m: MessageView| !droppable(m))
        + messages.skip(to)
}

/// At least one message of the tail stays.
pub open spec fn clamped(keep_tail: int) -> int {
    if keep_tail < 1 {
        1
    } else {
        keep_tail
    }
}

/// The stretch of the transcript between the head and the tail.
pub open spec fn cut(messages: Seq<MessageView>, keep_head: int, keep_tail: int) -> Option<
    (int, int),
> {
    let view = visible_positions(messages);
    if view.len() <= keep_head + clamped(keep_tail) {
        None
    } else {
        match tail_start(messages, keep_head, clamped(keep_tail)) {
            Some(tail) => Some((view[head_len(messages, keep_head)], view[tail])),
            None => None,
        }
    }
}

/// What stays of the transcript and how many messages go; `None` where nothing is to go, or where
/// what stays would break a tool round trip.
pub open spec fn compaction(messages: Seq<MessageView>, keep_head: int, keep_tail: int) -> Option<
    (Seq<MessageView>, nat),
> {
    match cut(messages, keep_head, keep_tail) {
        None => None,
        Some((from, to)) => {
            let kept = without(messages, from, to);
            if kept.len() < messages.len() && pairing_ok(kept) {
                Some((kept, (messages.len() - kept.len()) as nat))
            } else {
                None
            }
        },
    }
}

/// `out` is what stays, with the mark of the compaction behind it.
pub open spec fn marked(out: Seq<MessageView>, kept: Seq<MessageView>, dropped: nat) -> bool {
    &&& out.len() > 0
    &&& out.drop_last() == kept
    &&& out.last().body == marker_body(dropped)
    &&& is_random_uuid(out.last().id)
}

/// The positions listed are those of the messages that the model sees, in rising order.
pub proof fn lemma_visible_positions(messages: Seq<MessageView>)
    ensures
        visible_positions(messages).len() <= messages.len(),
        forall|k: int|
            0 <= k < visible_positions(messages).len() ==> {
                &&& 0 <= #[trigger] visible_positions(messages)[k] < messages.len()
                &&& messages[visible_positions(messages)[k]].body.agent_visible
            },
        forall|j: int, k: int|
            0 <= j < k < visible_positions(messages).len() ==> visible_positions(messages)[j]
                < visible_positions(messages)[k],
        forall|i: int|
            0 <= i < messages.len() && (#[trigger] messages[i]).body.agent_visible
                ==> visible_positions(messages).contains(i),
    decreases messages.len(),
{
    if messages.len() > 0 {
        let rest = messages.drop_last();
        let all = visible_positions(messages);
        let some = visible_positions(rest);
        lemma_visible_positions(rest);
        assert forall|k: int| 0 <= k < all.len() implies {
            &&& 0 <= #[trigger] all[k] < messages.len()
            &&& messages[all[k]].body.agent_visible
        } by {
            if k < some.len() {
                assert(all[k] == some[k]);
                assert(messages[some[k]] == rest[some[k]]);
            }
        }
        assert forall|i: int|
            0 <= i < messages.len() && (
            #[trigger] messages[i]).body.agent_visible implies all.contains(i) by {
            if i < messages.len() - 1 {
                assert(rest[i] == messages[i]);
                let k = choose|k: int| 0 <= k < some.len() && some[k] == i;
                assert(all[k] == i);
            } else {
                assert(all[all.len() - 1] == i);
            }
        }
    }
}

spec fn positions(view: Seq<usize>) -> Seq<int> {
    view.map_values(|i: usize| i as int)
}

fn visible(ctx: &Context) -> (view: Vec<usize>)
    ensures
        positions(view@) == visible_positions(ctx@),
{
    let mut view: Vec<usize> = Vec::new();
    let mut i: usize = 0;
    assert(positions(view@) =~= Seq::empty());
    while i < ctx.messages.len()
        invariant
            i <= ctx.messages@.len(),
            positions(view@) == visible_positions(ctx@.take(i as int)),
        decreases ctx.messages@.len() - i,
    {
        let ghost before = view@;
        assert(ctx@.take(i + 1).drop_last() =~= ctx@.take(i as int));
        assert(ctx@.take(i + 1).last() == ctx.messages@[i as int]@);
        if ctx.messages[i].agent_visible {
            view.push(i);
            assert(positions(view@) =~= positions(before).push(i as int));
        }
        i += 1;
    }
    assert(ctx@.take(ctx.messages@.len() as int) =~= ctx@);
    view
}

/// Where a cut may lie: at a human turn, or at any message that is no tool result.
spec fn cut_place(messages: Seq<MessageView>, human: bool) -> spec_fn(int) -> bool {
    if human {
        |i: int| human_at(messages, i)
    } else {
        |i: int| not_tool_at(messages, i)
    }
}

/// The last place from `lo` on and before `end` where a cut may lie.
fn last_cut_place(ctx: &Context, view: &Vec<usize>, human: bool, lo: usize, end: usize) -> (r:
    Option<usize>)
    requires
        positions(view@) == visible_positions(ctx@),
        end <= view@.len(),
    ensures
        match r {
            Some(i) => last_in(lo as int, end - 1, cut_place(ctx@, human)) == Some(i as int),
            None => last_in(lo as int, end - 1, cut_place(ctx@, human)) is None,
        },
{
    let ghost p = cut_place(ctx@, human);
    let mut i: usize = end;
    while i > lo
        invariant
            i <= end <= view@.len(),
            positions(view@) == visible_positions(ctx@),
            p == cut_place(ctx@, human),
            last_in(lo as int, end - 1, p) == last_in(lo as int, i - 1, p),
        decreases i,
    {
        i -= 1;
        proof {
            lemma_visible_positions(ctx@);
            assert(positions(view@)[i as int] == view@[i as int]);
        }
        let message = &ctx.messages[view[i]];
        let fits = if human {
            message.is_human_turn()
        } else {
            message.role != Role::Tool
        };
        assert(fits == p(i as int));
        if fits {
            return Some(i);
        }
    }
    None
}

/// The stretch between the head and the tail, by position in the transcript.
fn find_cut(ctx: &Context, keep_head: usize, keep_tail: usize) -> (r: Option<(usize, usize)>)
    ensures
        match r {
            Some((from, to)) => {
                &&& cut(ctx@, keep_head as int, keep_tail as int) == Some((from as int, to as int))
                &&& from <= to <= ctx@.len()
            },
            None => cut(ctx@, keep_head as int, keep_tail as int) is None,
        },
{
    let keep_tail: usize = if keep_tail < 1 {
        1
    } else {
        keep_tail
    };
    let view = visible(ctx);
    proof {
        lemma_visible_positions(ctx@);
        assert(positions(view@).len() == view@.len());
    }
    if view.len() <= keep_head.saturating_add(keep_tail) {
        return None;
    }
    let head: usize = match last_cut_place(ctx, &view, true, 0, keep_head) {
        Some(i) => {
            proof {
                lemma_last_in(0, keep_head - 1, |i: int| human_at(ctx@, i));
            }
            i + 1
        },
        None => 0,
    };
    let limit: usize = view.len() - keep_tail;
    let ghost lo = head + 1;
    let tail: usize = match last_cut_place(ctx, &view, true, head + 1, limit + 1) {
        Some(i) => i,
        None => match last_cut_place(ctx, &view, false, head + 1, limit + 1) {
            Some(i) => i,
            None => {
                return None;
            },
        },
    };
    proof {
        lemma_last_in(lo, limit as int, |i: int| human_at(ctx@, i));
        lemma_last_in(lo, limit as int, |i: int| not_tool_at(ctx@, i));
        assert(positions(view@)[head as int] == view@[head as int]);
        assert(positions(view@)[tail as int] == view@[tail as int]);
    }
    Some((view[head], view[tail]))
}

/// Compacts the transcript: gives the new transcript and the number of messages that went, or the
/// transcript as it is and 0.
///
/// A mark stands at the end of a compacted transcript: as long as it is the last thing said,
/// there is nothing new to base another compaction on.
pub fn compact(ctx: &Context, keep_head: usize, keep_tail: usize) -> (r: (Vec<Message>, usize))
    ensures
        match compaction(ctx@, keep_head as int, keep_tail as int) {
            Some((kept, dropped)) => marked(messages_view(r.0@), kept, dropped) && r.1 == dropped,
            None => messages_view(r.0@) == ctx@ && r.1 == 0,
        },
{
    let (from, to) = match find_cut(ctx, keep_head, keep_tail) {
        Some(cut) => cut,
        None => {
            return (clone_messages(&ctx.messages), 0);
        },
    };
    let ghost p = |m: MessageView| !droppable(m);
    let ghost middle = ctx@.subrange(from as int, to as int);
    let ghost kept = without(ctx@, from as int, to as int);
    let mut out: Vec<Message> = Vec::new();
    let mut dropped: usize = 0;
    let mut i: usize = 0;
    while i < ctx.messages.len()
        invariant
            i <= ctx.messages@.len(),
            from <= to <= ctx@.len(),
            p == (|m: MessageView| !droppable(m)),
            middle == ctx@.subrange(from as int, to as int),
            dropped + out@.len() == i,
            i <= from ==> messages_view(out@) == ctx@.take(i as int),
            from <= i <= to ==> messages_view(out@) == ctx@.take(from as int) + middle.take(
                i - from,
            ).filter(p),
            to <= i ==> messages_view(out@) == ctx@.take(from as int) + middle.filter(p)
                + ctx@.subrange(to as int, i as int),
        decreases ctx.messages@.len() - i,
    {
        let message = &ctx.messages[i];
        let ghost before = messages_view(out@);
        proof {
            assert(message@ == ctx@[i as int]);
            if from <= i < to {
                assert(middle.take(0) =~= Seq::empty());
                assert(middle.take(i - from + 1) =~= middle.take(i - from).push(message@));
                middle.take(i - from).lemma_filter_push(message@, p);
                assert(middle.take(to - from) =~= middle);
            }
        }
        if from <= i && i < to && message.agent_visible && message.role != Role::System {
            dropped += 1;
        } else {
            out.push(message.clone());
            assert(messages_view(out@) =~= before.push(message@));
        }
        i += 1;
        proof {
            assert(middle.take(0) =~= Seq::empty());
            assert(middle.take(to - from) =~= middle);
            if i <= from {
                assert(ctx@.take(i as int) =~= ctx@.take(i - 1).push(message@));
            }
            if from <= i <= to {
                assert(messages_view(out@) =~= ctx@.take(from as int) + middle.take(
                    i - from,
                ).filter(p));
            }
            if to <= i {
                assert(messages_view(out@) =~= ctx@.take(from as int) + middle.filter(p)
                    + ctx@.subrange(to as int, i as int));
            }
        }
    }
    proof {
        assert(ctx@.subrange(to as int, ctx@.len() as int) =~= ctx@.skip(to as int));
        assert(messages_view(out@) =~= kept);
    }
    if dropped == 0 {
        return (clone_messages(&ctx.messages), 0);
    }
    let marker = Message::compaction_marker(dropped);
    out.push(marker);
    proof {
        assert(messages_view(out@).drop_last() =~= kept);
        assert(messages_view(out@).last() == marker@);
    }
    if !tool_pairing_intact(out.as_slice()) {
        return (clone_messages(&ctx.messages), 0);
    }
    (out, dropped)
}

/// The token budget where none is configured.
pub const DEFAULT_TOKEN_BUDGET: u32 = 60_000;

/// The number of messages at the tail that stay where none is configured.
pub const DEFAULT_KEEP_TAIL: usize = 8;

/// The number of messages at the head among which the head is sought: the task is stated there.
pub const DEFAULT_KEEP_HEAD: usize = 1;

/// Why to compact.
#[derive(Debug, Clone, Copy, PartialEq, Eq, Structural)]
pub enum Trigger {
    /// The prompt tokens reported last have reached the budget.
    Proactive { prompt_tokens: u32 },
    /// The last request failed because the context was too long.
    Recover,
}

/// Why to compact a transcript, if there is a reason: a failure counts before the budget.
pub open spec fn trigger_for(messages: Seq<MessageView>, budget: u32) -> Option<Trigger> {
    if last_fault(messages) == Some(ErrorKind::ContextLengthExceeded) {
        Some(Trigger::Recover)
    } else {
        match last_usage(messages) {
            Some(usage) if usage.prompt >= budget => Some(
                Trigger::Proactive { prompt_tokens: usage.prompt },
            ),
            _ => None,
        }
    }
}

/// How many messages have to go at least to be worth it: a whole tail, or, after a failure, one.
pub open spec fn worth(trigger: Trigger, keep_tail: int) -> int {
    match trigger {
        Trigger::Recover => 1,
        Trigger::Proactive { .. } => keep_tail,
    }
}

/// The compaction that a transcript is due for: there is new evidence and a reason, no call waits
/// for its result, and enough messages go.
pub open spec fn due(
    messages: Seq<MessageView>,
    budget: u32,
    keep_head: int,
    keep_tail: int,
) -> Option<(Seq<MessageView>, nat)> {
    if !new_evidence(messages) || pending_calls(messages).len() > 0 {
        None
    } else {
        match (trigger_for(messages, budget), compaction(messages, keep_head, keep_tail)) {
            (Some(trigger), Some((kept, dropped))) if dropped >= worth(trigger, keep_tail) => Some(
                (kept, dropped),
            ),
            _ => None,
        }
    }
}

/// The operation applied, the turn goes on, and the one effect replaces the transcript by what
/// stays and the mark behind it.
pub open spec fn replaces(
    result: Option<StepView>,
    kept: Seq<MessageView>,
    dropped: nat,
) -> bool {
    match result {
        Some(step) => {
            &&& !step.yield_turn
            &&& step.effects.len() == 1
            &&& step.effects[0] is ReplaceConversation
            &&& marked(step.effects[0]->ReplaceConversation_0, kept, dropped)
        },
        None => false,
    }
}

/// Shortens the model's view before it outgrows the model, or after it did.
#[derive(Debug)]
pub struct CompactionOperation {
    budget: u32,
    keep_head: usize,
    keep_tail: usize,
}

/// A configured number, where there is one and it can be read.
pub open spec fn configured(value: Option<&str>, max: nat, default: nat) -> nat {
    match value {
        Some(text) => match parsed_unsigned(text@, max) {
            Some(n) => n,
            None => default,
        },
        None => default,
    }
}

impl CompactionOperation {
    /// The token budget.
    pub closed spec fn budget(self) -> u32 {
        self.budget
    }

    /// The number of messages at the head among which the head is sought.
    pub closed spec fn keep_head(self) -> usize {
        self.keep_head
    }

    /// The number of messages at the tail that stay at least.
    pub closed spec fn keep_tail(self) -> usize {
        self.keep_tail
    }

    #[verifier::type_invariant]
    spec fn keeps_a_tail(self) -> bool {
        self.keep_tail >= 1
    }

    /// Reads the limits from two configured texts, with defaults for what is missing or no number.
    pub fn new(budget: Option<&str>, keep_tail: Option<&str>) -> (r: Self)
        ensures
            r.budget() == configured(budget, u32::MAX as nat, DEFAULT_TOKEN_BUDGET as nat),
            r.keep_head() == DEFAULT_KEEP_HEAD,
            r.keep_tail() == clamped(
                configured(keep_tail, usize::MAX as nat, DEFAULT_KEEP_TAIL as nat) as int,
            ),
    {
        let budget: u32 = match budget {
            Some(text) => match parse_unsigned(text, u32::MAX as u64) {
                Some(n) => n as u32,
                None => DEFAULT_TOKEN_BUDGET,
            },
            None => DEFAULT_TOKEN_BUDGET,
        };
        let keep_tail: usize = match keep_tail {
            Some(text) => match parse_unsigned(text, usize::MAX as u64) {
                Some(n) => n as usize,
                None => DEFAULT_KEEP_TAIL,
            },
            None => DEFAULT_KEEP_TAIL,
        };
        CompactionOperation::with_limits(budget, DEFAULT_KEEP_HEAD, keep_tail)
    }

    /// Takes the limits as given; at least one message of the tail stays.
    pub fn with_limits(budget: u32, keep_head: usize, keep_tail: usize) -> (r: Self)
        ensures
            r.budget() == budget,
            r.keep_head() == keep_head,
            r.keep_tail() == clamped(keep_tail as int),
    {
        CompactionOperation {
            budget,
            keep_head,
            keep_tail: if keep_tail < 1 {
                1
            } else {
                keep_tail
            },
        }
    }

    /// The name of the operation.
    pub fn name(&self) -> (r: &'static str)
        ensures
            r@ == "compaction"@,
    {
        "compaction"
    }

    /// Why to compact now, if there is a reason.
    pub fn trigger(&self, ctx: &Context) -> (r: Option<Trigger>)
        ensures
            r == trigger_for(ctx@, self.budget()),
    {
        if let Some(ErrorKind::ContextLengthExceeded) = ctx.last_error_kind() {
            return Some(Trigger::Recover);
        }
        match ctx.last_prompt_tokens() {
            Some(tokens) if tokens >= self.budget => Some(
                Trigger::Proactive { prompt_tokens: tokens },
            ),
            _ => None,
        }
    }

    /// Compacts the transcript where it is due.
    pub fn evaluate(&self, ctx: &Context) -> (r: OperationResult)
        ensures
            match due(ctx@, self.budget(), self.keep_head() as int, self.keep_tail() as int) {
                None => r@ is None,
                Some((kept, dropped)) => replaces(r@, kept, dropped),
            },
    {
        proof {
            use_type_invariant(self);
        }
        if !ctx.has_new_evidence_since_compaction() {
            return OperationResult::NotApplicable;
        }
        let trigger = match self.trigger(ctx) {
            Some(trigger) => trigger,
            None => {
                return OperationResult::NotApplicable;
            },
        };
        let pending = ctx.pending_tool_calls();
        assert(pending@.len() == pending_calls(ctx@).len());
        if pending.len() > 0 {
            return OperationResult::NotApplicable;
        }
        let (compacted, dropped) = compact(ctx, self.keep_head, self.keep_tail);
        let min_drop: usize = match trigger {
            Trigger::Recover => 1,
            Trigger::Proactive { .. } => self.keep_tail,
        };
        if dropped < min_drop {
            return OperationResult::NotApplicable;
        }
        let ghost out = messages_view(compacted@);
        let r = OperationResult::applied(vec![Effect::ReplaceConversation(compacted)]);
        proof {
            let step = r@->0;
            assert(step.effects =~= seq![EffectView::ReplaceConversation(out)]);
        }
        r
    }
}

} // verus!
