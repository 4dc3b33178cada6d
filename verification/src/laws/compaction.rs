//! What a compaction keeps, and when there can be another one.

use crate::engine::{conversation_len, in_conversation};
use crate::filter::{
    lemma_all_stay, lemma_filter_keeps, lemma_filter_source, lemma_filters_meet, lemma_parts,
    lemma_same_filter,
};
use crate::ident::is_random_uuid;
use crate::laws::facts::{law_the_mark_tells_how_many_went, law_why_to_compact};
use crate::message::{
    agent_view, is_new_fact, new_evidence, pending_calls, unmarked_from, MessageView, Role,
};
use crate::operations::compaction::{
    clamped, compaction, configured, cut, droppable, due, head_len, human_at,
    lemma_visible_positions, marked, not_tool_at, replaces, tail_start, trigger_for,
    visible_positions, without, Trigger, DEFAULT_KEEP_HEAD, DEFAULT_KEEP_TAIL,
    DEFAULT_TOKEN_BUDGET,
};
use crate::pairing::{
    declared_ids, lemma_pairing_join, lemma_pairing_next, lemma_prefix_unbroken, pairing_after,
    pairing_from, pairing_ok, pairing_step,
};
use crate::pipeline::StepView;
use crate::provider_error::ErrorKind;
use crate::search::{last_in, lemma_last_in};
use crate::text::{decimal, parsed_unsigned};
use vstd::prelude::*;

verus! {

/// The positions are those of the messages of the model's view, one by one.
proof fn lemma_view_positions(messages: Seq<MessageView>)
    ensures
        agent_view(messages).len() == visible_positions(messages).len(),
        forall|k: int|
            0 <= k < visible_positions(messages).len() ==> #[trigger] agent_view(messages)[k]
                == messages[visible_positions(messages)[k]],
    decreases messages.len(),
{
    let p = |m: MessageView| m.body.agent_visible;
    reveal(Seq::filter);
    if messages.len() > 0 {
        let rest = messages.drop_last();
        lemma_view_positions(rest);
        lemma_visible_positions(rest);
        assert(messages =~= rest.push(messages.last()));
        rest.lemma_filter_push(messages.last(), p);
        assert forall|k: int| 0 <= k < visible_positions(messages).len() implies
            #[trigger] agent_view(messages)[k] == messages[visible_positions(messages)[k]] by {
            if k < visible_positions(rest).len() {
                assert(agent_view(rest)[k] == rest[visible_positions(rest)[k]]);
                assert(visible_positions(messages)[k] == visible_positions(rest)[k]);
            }
        }
    }
}

/// Before the position of place `t` stand the first `t` messages of the model's view, from there
/// on the others.
proof fn lemma_view_split(messages: Seq<MessageView>, t: int)
    requires
        0 <= t < visible_positions(messages).len(),
    ensures
        agent_view(messages.take(visible_positions(messages)[t])) == agent_view(messages).take(t),
        agent_view(messages.skip(visible_positions(messages)[t])) == agent_view(messages).skip(t),
{
    lemma_view_positions(messages);
    lemma_visible_positions(messages);
    lemma_view_take(messages, t);
    let at = visible_positions(messages)[t];
    let p = |m: MessageView| m.body.agent_visible;
    assert(messages =~= messages.take(at) + messages.skip(at));
    Seq::filter_distributes_over_add(messages.take(at), messages.skip(at), p);
    let view = agent_view(messages);
    assert(view.take(t) + agent_view(messages.skip(at)) == view);
    assert(agent_view(messages.skip(at)) =~= view.skip(t));
}

proof fn lemma_view_take(messages: Seq<MessageView>, t: int)
    requires
        0 <= t < visible_positions(messages).len(),
    ensures
        agent_view(messages.take(visible_positions(messages)[t])) == agent_view(messages).take(t),
    decreases messages.len(),
{
    let p = |m: MessageView| m.body.agent_visible;
    let rest = messages.drop_last();
    let at = visible_positions(messages)[t];
    lemma_view_positions(messages);
    lemma_view_positions(rest);
    lemma_visible_positions(messages);
    lemma_visible_positions(rest);
    assert(messages =~= rest.push(messages.last()));
    rest.lemma_filter_push(messages.last(), p);
    if t < visible_positions(rest).len() {
        assert(visible_positions(rest)[t] == at);
        lemma_view_take(rest, t);
        assert(messages.take(at) =~= rest.take(at));
        assert(agent_view(messages).take(t) =~= agent_view(rest).take(t));
    } else {
        assert(messages.take(at) =~= rest);
        assert(agent_view(messages).take(t) =~= agent_view(rest));
    }
}

/// The cut lies in the model's view: the head ends before it, and enough of the tail stays.
proof fn lemma_cut(messages: Seq<MessageView>, keep_head: int, keep_tail: int)
    requires
        0 <= keep_head,
        cut(messages, keep_head, keep_tail) is Some,
    ensures
        ({
            let view = visible_positions(messages);
            let head = head_len(messages, keep_head);
            let tail = tail_start(messages, keep_head, clamped(keep_tail))->0;
            &&& tail_start(messages, keep_head, clamped(keep_tail)) is Some
            &&& cut(messages, keep_head, keep_tail) == Some((view[head], view[tail]))
            &&& 0 <= head <= keep_head
            &&& head < tail <= view.len() - clamped(keep_tail)
            &&& 0 <= view[head] <= view[tail] < messages.len()
            &&& not_tool_at(messages, tail)
            &&& head > 0 ==> human_at(messages, head - 1)
        }),
{
    lemma_visible_positions(messages);
    let view = visible_positions(messages);
    let lo = head_len(messages, keep_head) + 1;
    let hi = view.len() - clamped(keep_tail);
    lemma_last_in(0, keep_head - 1, |i: int| human_at(messages, i));
    lemma_last_in(lo, hi, |i: int| human_at(messages, i));
    lemma_last_in(lo, hi, |i: int| not_tool_at(messages, i));
}

/// The model's view after a cut: the head and the tail as they were, and the system messages in
/// between.
pub proof fn law_head_and_tail_stay(
    messages: Seq<MessageView>,
    keep_head: int,
    keep_tail: int,
)
    requires
        0 <= keep_head,
        compaction(messages, keep_head, keep_tail) is Some,
    ensures
        ({
            let (kept, dropped) = compaction(messages, keep_head, keep_tail)->0;
            let view = agent_view(messages);
            let head = head_len(messages, keep_head);
            let tail = tail_start(messages, keep_head, clamped(keep_tail))->0;
            &&& 0 <= head < tail <= view.len() - clamped(keep_tail)
            &&& agent_view(kept) == view.take(head) + view.subrange(head, tail).filter(
                |m: MessageView| m.body.role == Role::System,
            ) + view.skip(tail)
            &&& view[tail].body.role != Role::Tool
        }),
{
    lemma_cut(messages, keep_head, keep_tail);
    lemma_view_positions(messages);
    let positions = visible_positions(messages);
    let head = head_len(messages, keep_head);
    let tail = tail_start(messages, keep_head, clamped(keep_tail))->0;
    let from = positions[head];
    let to = positions[tail];
    let visible = |m: MessageView| m.body.agent_visible;
    let stays = |m: MessageView| !droppable(m);
    let system = |m: MessageView| m.body.role == Role::System;
    let view = agent_view(messages);
    lemma_view_split(messages, head);
    lemma_view_split(messages, tail);
    assert(view[tail] == messages[to]);
    let middle = messages.subrange(from, to);
    assert(messages.take(to) =~= messages.take(from) + middle);
    Seq::filter_distributes_over_add(messages.take(from), middle, visible);
    assert(view.take(tail) == view.take(head) + agent_view(middle));
    assert((view.take(head) + agent_view(middle)).skip(head) =~= agent_view(middle));
    assert(view.take(tail).skip(head) =~= view.subrange(head, tail));
    lemma_filters_meet(middle, stays, visible, visible, system);
    let kept = without(messages, from, to);
    Seq::filter_distributes_over_add(messages.take(from), middle.filter(stays), visible);
    Seq::filter_distributes_over_add(
        messages.take(from) + middle.filter(stays),
        messages.skip(to),
        visible,
    );
}

/// What a compaction may not touch stays, in order: what the model does not see, and system
/// messages.
pub proof fn law_only_the_models_view_shrinks(
    messages: Seq<MessageView>,
    keep_head: int,
    keep_tail: int,
)
    requires
        0 <= keep_head,
        compaction(messages, keep_head, keep_tail) is Some,
    ensures
        ({
            let (kept, dropped) = compaction(messages, keep_head, keep_tail)->0;
            &&& kept.filter(|m: MessageView| !droppable(m)) == messages.filter(
                |m: MessageView| !droppable(m),
            )
            &&& dropped > 0
            &&& kept.len() + dropped == messages.len()
        }),
{
    lemma_cut(messages, keep_head, keep_tail);
    let (from, to) = cut(messages, keep_head, keep_tail)->0;
    let stays = |m: MessageView| !droppable(m);
    let middle = messages.subrange(from, to);
    assert(messages =~= messages.take(from) + middle + messages.skip(to));
    Seq::filter_distributes_over_add(messages.take(from), middle, stays);
    Seq::filter_distributes_over_add(messages.take(from) + middle, messages.skip(to), stays);
    Seq::filter_distributes_over_add(messages.take(from), middle.filter(stays), stays);
    Seq::filter_distributes_over_add(
        messages.take(from) + middle.filter(stays),
        messages.skip(to),
        stays,
    );
    lemma_filters_meet(middle, stays, stays, stays, |m: MessageView| true);
    lemma_all_stay(middle.filter(stays), |m: MessageView| true);
}

/// At least the last messages of the model's view stay as they were.
pub proof fn law_recent_messages_stay(messages: Seq<MessageView>, keep_head: int, keep_tail: int)
    requires
        0 <= keep_head,
        compaction(messages, keep_head, keep_tail) is Some,
    ensures
        ({
            let kept = agent_view((compaction(messages, keep_head, keep_tail)->0).0);
            let view = agent_view(messages);
            &&& kept.len() >= clamped(keep_tail)
            &&& kept.skip(kept.len() - clamped(keep_tail)) == view.skip(
                view.len() - clamped(keep_tail),
            )
        }),
{
    law_head_and_tail_stay(messages, keep_head, keep_tail);
    let kept = agent_view((compaction(messages, keep_head, keep_tail)->0).0);
    let view = agent_view(messages);
    let n = clamped(keep_tail);
    let tail = tail_start(messages, keep_head, n)->0;
    let before = kept.len() - view.skip(tail).len();
    assert(kept.skip(before) =~= view.skip(tail));
    assert(kept.skip(kept.len() - n) =~= kept.skip(before).skip(view.skip(tail).len() - n));
    assert(view.skip(view.len() - n) =~= view.skip(tail).skip(view.skip(tail).len() - n));
}

/// The task that a human stated first stays, whatever else goes.
pub proof fn law_first_task_stays(messages: Seq<MessageView>, keep_head: int, keep_tail: int)
    requires
        keep_head >= 1,
        compaction(messages, keep_head, keep_tail) is Some,
        agent_view(messages)[0].body.is_human_turn(),
    ensures
        ({
            let kept = agent_view((compaction(messages, keep_head, keep_tail)->0).0);
            kept.len() > 0 && kept[0] == agent_view(messages)[0]
        }),
{
    law_head_and_tail_stay(messages, keep_head, keep_tail);
    lemma_view_positions(messages);
    let p = |i: int| human_at(messages, i);
    lemma_last_in(0, keep_head - 1, p);
    assert(p(0));
    assert(head_len(messages, keep_head) > 0);
}

/// The compacted transcript is legal: no result without its call, no call without its result.
pub proof fn law_compacted_transcript_is_legal(
    messages: Seq<MessageView>,
    keep_head: int,
    keep_tail: int,
    out: Seq<MessageView>,
)
    requires
        compaction(messages, keep_head, keep_tail) matches Some((kept, dropped)) && marked(
            out,
            kept,
            dropped,
        ),
    ensures
        pairing_ok(out),
{
}

/// The protocol depends on what the model sees alone.
pub proof fn lemma_pairing_of_view(start: Option<Set<Seq<char>>>, messages: Seq<MessageView>)
    ensures
        pairing_from(start, messages) == pairing_from(start, agent_view(messages)),
    decreases messages.len(),
{
    let p = |m: MessageView| m.body.agent_visible;
    if messages.len() > 0 {
        let rest = messages.drop_last();
        lemma_pairing_of_view(start, rest);
        assert(messages =~= rest.push(messages.last()));
        rest.lemma_filter_push(messages.last(), p);
        if p(messages.last()) {
            assert(agent_view(messages).drop_last() =~= agent_view(rest));
        }
    } else {
        assert(agent_view(messages) =~= messages);
    }
}

/// Only the assistant declares calls.
pub open spec fn only_assistant_calls(messages: Seq<MessageView>) -> bool {
    forall|i: int|
        0 <= i < messages.len() && (#[trigger] messages[i]).body.role != Role::Assistant ==> (
        messages[i].body.tool_calls matches Some(calls) ==> calls.len() == 0)
}

proof fn lemma_no_calls(message: MessageView)
    requires
        message.body.agent_visible,
        message.body.role != Role::Tool,
        message.body.tool_calls matches Some(calls) ==> calls.len() == 0,
    ensures
        pairing_step(Some(Set::empty()), message) == Some(Set::<Seq<char>>::empty()),
{
    if let Some(calls) = message.body.tool_calls {
        assert(declared_ids(calls) =~= Set::empty());
    }
}

/// System messages and what the model does not see leave no call waiting.
proof fn lemma_quiet(messages: Seq<MessageView>)
    requires
        forall|i: int| 0 <= i < messages.len() ==> !droppable(#[trigger] messages[i]),
        only_assistant_calls(messages),
    ensures
        pairing_from(Some(Set::empty()), messages) == Some(Set::<Seq<char>>::empty()),
    decreases messages.len(),
{
    if messages.len() > 0 {
        let rest = messages.drop_last();
        let last = messages.last();
        assert(forall|i: int| 0 <= i < rest.len() ==> rest[i] == #[trigger] messages[i]);
        assert forall|i: int| 0 <= i < rest.len() implies !droppable(#[trigger] rest[i]) by {
            assert(rest[i] == messages[i]);
        }
        lemma_quiet(rest);
        assert(!droppable(messages[messages.len() - 1]));
        if last.body.agent_visible {
            lemma_no_calls(last);
        }
    }
}

/// A compaction of a legal transcript in which only the assistant declares calls breaks no round
/// trip: it is never given up for that.
pub proof fn law_legal_transcript_can_be_compacted(
    messages: Seq<MessageView>,
    keep_head: int,
    keep_tail: int,
)
    requires
        0 <= keep_head,
        pairing_ok(messages),
        only_assistant_calls(messages),
        cut(messages, keep_head, keep_tail) matches Some((from, to)) && without(
            messages,
            from,
            to,
        ).len() < messages.len(),
    ensures
        compaction(messages, keep_head, keep_tail) is Some,
{
    lemma_cut(messages, keep_head, keep_tail);
    lemma_view_positions(messages);
    lemma_visible_positions(messages);
    let (from, to) = cut(messages, keep_head, keep_tail)->0;
    let head = head_len(messages, keep_head);
    let tail = tail_start(messages, keep_head, clamped(keep_tail))->0;
    let view = agent_view(messages);
    let start = Some(Set::<Seq<char>>::empty());
    let stays = |m: MessageView| !droppable(m);
    let middle = messages.subrange(from, to);
    // No call waits behind the head.
    lemma_view_split(messages, head);
    lemma_pairing_of_view(start, messages);
    lemma_pairing_of_view(start, messages.take(from));
    if head > 0 {
        lemma_prefix_unbroken(view, head - 1);
        lemma_prefix_unbroken(view, head);
        lemma_pairing_next(view, head - 1);
        assert(view[head - 1] == messages[visible_positions(messages)[head - 1]]);
        lemma_no_calls(view[head - 1]);
    } else {
        assert(view.take(0) =~= Seq::empty());
    }
    assert(pairing_after(messages.take(from)) == start);
    // No call waits before the tail.
    lemma_prefix_unbroken(messages, to);
    lemma_prefix_unbroken(messages, to + 1);
    lemma_pairing_next(messages, to);
    assert(pairing_after(messages.take(to)) == start);
    assert(messages =~= messages.take(to) + messages.skip(to));
    lemma_pairing_join(start, messages.take(to), messages.skip(to));
    // What stays in between declares nothing.
    let between = middle.filter(stays);
    assert forall|i: int| 0 <= i < between.len() implies !droppable(#[trigger] between[i]) by {
        middle.lemma_filter_pred(stays, i);
    }
    assert forall|i: int|
        0 <= i < between.len() && (
        #[trigger] between[i]).body.role != Role::Assistant implies (
    between[i].body.tool_calls matches Some(calls) ==> calls.len() == 0) by {
        lemma_filter_source(middle, stays, i);
        let k = choose|k: int| 0 <= k < middle.len() && #[trigger] middle[k] == between[i];
        assert(messages[from + k] == between[i]);
    }
    lemma_quiet(between);
    lemma_pairing_join(start, messages.take(from), between);
    lemma_pairing_join(start, messages.take(from) + between, messages.skip(to));
}

/// The model sees as many messages fewer as went, and the mark.
pub proof fn law_view_shrinks_by_what_went(
    messages: Seq<MessageView>,
    keep_head: int,
    keep_tail: int,
    out: Seq<MessageView>,
)
    requires
        0 <= keep_head,
        compaction(messages, keep_head, keep_tail) matches Some((kept, dropped)) && marked(
            out,
            kept,
            dropped,
        ),
    ensures
        agent_view(out).len() + (compaction(messages, keep_head, keep_tail)->0).1 == agent_view(
            messages,
        ).len() + 1,
{
    let (kept, dropped) = compaction(messages, keep_head, keep_tail)->0;
    let visible = |m: MessageView| m.body.agent_visible;
    let hidden = |m: MessageView| !m.body.agent_visible;
    assert(out =~= kept.push(out.last()));
    kept.lemma_filter_push(out.last(), visible);
    law_only_the_models_view_shrinks(messages, keep_head, keep_tail);
    let stays = |m: MessageView| !droppable(m);
    lemma_filters_meet(kept, stays, hidden, hidden, |m: MessageView| true);
    lemma_filters_meet(messages, stays, hidden, hidden, |m: MessageView| true);
    lemma_all_stay(kept.filter(hidden), |m: MessageView| true);
    lemma_all_stay(messages.filter(hidden), |m: MessageView| true);
    lemma_parts(kept, visible, hidden);
    lemma_parts(messages, visible, hidden);
}

/// The counts told of a first compaction differ by what went.
pub proof fn law_counts_told_differ_by_what_went(
    messages: Seq<MessageView>,
    keep_head: int,
    keep_tail: int,
    out: Seq<MessageView>,
)
    requires
        0 <= keep_head,
        unmarked_from(messages, 0),
        compaction(messages, keep_head, keep_tail) matches Some((kept, dropped)) && marked(
            out,
            kept,
            dropped,
        ),
    ensures
        conversation_len(out) + (compaction(messages, keep_head, keep_tail)->0).1
            == conversation_len(messages),
{
    let (kept, dropped) = compaction(messages, keep_head, keep_tail)->0;
    let visible = |m: MessageView| m.body.agent_visible;
    let told = |m: MessageView| in_conversation(m);
    law_view_shrinks_by_what_went(messages, keep_head, keep_tail, out);
    lemma_cut(messages, keep_head, keep_tail);
    assert(out =~= kept.push(out.last()));
    kept.lemma_filter_push(out.last(), visible);
    kept.lemma_filter_push(out.last(), told);
    let (from, to) = cut(messages, keep_head, keep_tail)->0;
    let middle = messages.subrange(from, to);
    let stays = |m: MessageView| !droppable(m);
    assert forall|i: int| 0 <= i < kept.len() implies !(
    #[trigger] kept[i]).body.is_compaction_marker() by {
        if i < from {
            assert(kept[i] == messages[i]);
        } else if i < from + middle.filter(stays).len() {
            assert(kept[i] == middle.filter(stays)[i - from]);
            lemma_filter_source(middle, stays, i - from);
            let k = choose|k: int|
                0 <= k < middle.len() && #[trigger] middle[k] == middle.filter(stays)[i - from];
            assert(middle[k] == messages[from + k]);
        } else {
            let k = i - from - middle.filter(stays).len();
            assert(kept[i] == messages[to + k]);
        }
    }
    lemma_same_filter(kept, visible, told);
    lemma_same_filter(messages, visible, told);
}

/// The same evidence is used once: behind a compaction, as long as no usage is reported and no
/// human speaks, no other compaction is due, whatever the limits.
pub proof fn law_same_evidence_is_used_once(
    kept: Seq<MessageView>,
    dropped: nat,
    out: Seq<MessageView>,
    later: Seq<MessageView>,
    budget: u32,
    keep_head: int,
    keep_tail: int,
)
    requires
        marked(out, kept, dropped),
        forall|k: int| 0 <= k < later.len() ==> !is_new_fact(#[trigger] later[k]),
    ensures
        !new_evidence(out + later),
        due(out + later, budget, keep_head, keep_tail) is None,
{
    let all = out + later;
    let mark = out.len() - 1;
    assert(all[mark] == out.last());
    assert(all[mark].body.is_compaction_marker());
    assert(!unmarked_from(all, 0));
    assert forall|k: int| 0 <= k < all.len() && is_new_fact(#[trigger] all[k]) implies
        !unmarked_from(all, k) by {
        if k >= out.len() {
            assert(all[k] == later[k - out.len()]);
        } else {
            assert(k <= mark);
        }
    }
}

/// A usage reported or a human turn behind a compaction is new evidence.
pub proof fn law_a_new_fact_is_new_evidence(
    messages: Seq<MessageView>,
    later: Seq<MessageView>,
    k: int,
)
    requires
        0 <= k < later.len(),
        is_new_fact(later[k]),
        unmarked_from(later, k),
    ensures
        new_evidence(messages + later),
{
    let all = messages + later;
    let at = messages.len() + k;
    assert(all[at] == later[k]);
    assert forall|j: int| at <= j < all.len() implies !(
    #[trigger] all[j]).body.is_compaction_marker() by {
        assert(all[j] == later[j - messages.len()]);
    }
    assert(unmarked_from(all, at));
}

/// No compaction is due while a call waits for its result.
pub proof fn law_round_trips_are_left_alone(
    messages: Seq<MessageView>,
    budget: u32,
    keep_head: int,
    keep_tail: int,
)
    requires
        pending_calls(messages).len() > 0,
    ensures
        due(messages, budget, keep_head, keep_tail) is None,
{
}

/// The message that the model sees in this place was typed by the human.
pub open spec fn typed_at(view: Seq<MessageView>, i: int) -> bool {
    view[i].body.role == Role::User && view[i].body.user_visible
}

/// The head that stays ends with the last human turn among the first messages that the model sees,
/// as many as configured; without one among them there is no head.
pub proof fn law_where_the_head_ends(messages: Seq<MessageView>, keep_head: int, k: int)
    requires
        0 <= keep_head <= agent_view(messages).len(),
    ensures
        (forall|i: int| 0 <= i < keep_head ==> !#[trigger] typed_at(agent_view(messages), i))
            ==> head_len(messages, keep_head) == 0,
        0 <= k < keep_head && typed_at(agent_view(messages), k) && (forall|i: int|
            k < i < keep_head ==> !#[trigger] typed_at(agent_view(messages), i)) ==> head_len(
            messages,
            keep_head,
        ) == k + 1,
{
    let p = |i: int| human_at(messages, i);
    let view = agent_view(messages);
    lemma_view_positions(messages);
    lemma_last_in(0, keep_head - 1, p);
    assert forall|i: int| 0 <= i < keep_head implies p(i) == #[trigger] typed_at(view, i) by {
        assert(view[i] == messages[visible_positions(messages)[i]]);
    }
    if let Some(i) = last_in(0, keep_head - 1, p) {
        assert(typed_at(view, i) == p(i));
        if 0 <= k < keep_head && typed_at(view, k) {
            assert(p(k));
        }
    } else if 0 <= k < keep_head && typed_at(view, k) {
        assert(p(k));
    }
}

/// The tail that stays starts behind the head and one more message, with at least so many messages
/// left as configured: at the last human turn there, or, where there is none, at the last message
/// that is no tool result; where there are results alone, nowhere.
pub proof fn law_where_the_tail_starts(
    messages: Seq<MessageView>,
    keep_head: int,
    keep_tail: int,
    t: int,
)
    requires
        0 <= keep_head,
        keep_tail >= 1,
        head_len(messages, keep_head) < t <= agent_view(messages).len() - keep_tail,
    ensures
        typed_at(agent_view(messages), t) && (forall|i: int|
            t < i <= agent_view(messages).len() - keep_tail ==> !#[trigger] typed_at(
                agent_view(messages),
                i,
            )) ==> tail_start(messages, keep_head, keep_tail) == Some(t),
        agent_view(messages)[t].body.role != Role::Tool && (forall|i: int|
            head_len(messages, keep_head) < i <= agent_view(messages).len() - keep_tail
                ==> !#[trigger] typed_at(agent_view(messages), i)) && (forall|i: int|
            t < i <= agent_view(messages).len() - keep_tail ==> (#[trigger] agent_view(
                messages,
            )[i]).body.role == Role::Tool) ==> tail_start(messages, keep_head, keep_tail) == Some(
            t,
        ),
        (forall|i: int|
            head_len(messages, keep_head) < i <= agent_view(messages).len() - keep_tail ==> (
            #[trigger] agent_view(messages)[i]).body.role == Role::Tool) ==> tail_start(
            messages,
            keep_head,
            keep_tail,
        ) is None,
{
    let view = agent_view(messages);
    let human = |i: int| human_at(messages, i);
    let other = |i: int| not_tool_at(messages, i);
    let lo = head_len(messages, keep_head) + 1;
    let hi = view.len() - keep_tail;
    lemma_view_positions(messages);
    lemma_last_in(0, keep_head - 1, human);
    lemma_last_in(lo, hi, human);
    lemma_last_in(lo, hi, other);
    assert forall|i: int| lo <= i <= hi implies human(i) == #[trigger] typed_at(view, i) by {
        assert(view[i] == messages[visible_positions(messages)[i]]);
    }
    assert forall|i: int| lo <= i <= hi implies other(i) == ((#[trigger] view[i]).body.role
        != Role::Tool) by {
        assert(view[i] == messages[visible_positions(messages)[i]]);
    }
    assert(human(t) == typed_at(view, t));
    assert(other(t) == (view[t].body.role != Role::Tool));
    if let Some(i) = last_in(lo, hi, human) {
        assert(human(i) == typed_at(view, i));
        assert(view[i].body.role != Role::Tool);
    }
    if let Some(i) = last_in(lo, hi, other) {
        assert(other(i) == (view[i].body.role != Role::Tool));
    }
}

/// What a compaction takes out: from one stretch of the transcript, between the head and the tail
/// of the model's view, what the model sees and what is no system message. All the rest stays
/// where it was, and what went is counted.
pub proof fn law_what_a_compaction_takes_out(
    messages: Seq<MessageView>,
    keep_head: int,
    keep_tail: int,
    kept: Seq<MessageView>,
    dropped: nat,
)
    requires
        0 <= keep_head,
        compaction(messages, keep_head, keep_tail) == Some((kept, dropped)),
    ensures
        dropped > 0,
        dropped + kept.len() == messages.len(),
        pairing_ok(kept),
        exists|from: int, to: int|
            #![trigger messages.take(from), messages.skip(to)]
            {
                &&& 0 <= from <= to < messages.len()
                &&& kept == messages.take(from) + messages.subrange(from, to).filter(
                    |m: MessageView| !m.body.agent_visible || m.body.role == Role::System,
                ) + messages.skip(to)
                &&& messages[from].body.agent_visible && messages[to].body.agent_visible
                &&& agent_view(messages.take(from)).len() == head_len(messages, keep_head)
                &&& tail_start(
                    messages,
                    keep_head,
                    if keep_tail < 1 {
                        1
                    } else {
                        keep_tail
                    },
                ) == Some(agent_view(messages.take(to)).len() as int)
            },
{
    lemma_cut(messages, keep_head, keep_tail);
    lemma_visible_positions(messages);
    lemma_view_positions(messages);
    let (from, to) = cut(messages, keep_head, keep_tail)->0;
    let middle = messages.subrange(from, to);
    let stays = |m: MessageView| !droppable(m);
    let other = |m: MessageView| !m.body.agent_visible || m.body.role == Role::System;
    lemma_same_filter(middle, stays, other);
    lemma_view_split(messages, head_len(messages, keep_head));
    lemma_view_split(messages, tail_start(messages, keep_head, clamped(keep_tail))->0);
    assert(kept == messages.take(from) + middle.filter(other) + messages.skip(to));
}

/// There is nothing to compact where the model sees no more than the head and the tail that are to
/// stay, or where no tail can start.
pub proof fn law_short_views_are_left_alone(
    messages: Seq<MessageView>,
    keep_head: int,
    keep_tail: int,
)
    ensures
        agent_view(messages).len() <= keep_head + if keep_tail < 1 {
            1
        } else {
            keep_tail
        } ==> compaction(messages, keep_head, keep_tail) is None,
        tail_start(
            messages,
            keep_head,
            if keep_tail < 1 {
                1
            } else {
                keep_tail
            },
        ) is None ==> compaction(messages, keep_head, keep_tail) is None,
{
    lemma_view_positions(messages);
}

/// A legal transcript that is long enough is compacted wherever a message may go: one that is no
/// system message, between the head and the tail of the model's view.
pub proof fn law_long_views_are_compacted(
    messages: Seq<MessageView>,
    keep_head: int,
    keep_tail: int,
    t: int,
    i: int,
)
    requires
        0 <= keep_head,
        keep_tail >= 1,
        pairing_ok(messages),
        only_assistant_calls(messages),
        agent_view(messages).len() > keep_head + keep_tail,
        tail_start(messages, keep_head, keep_tail) == Some(t),
        head_len(messages, keep_head) <= i < t,
        agent_view(messages)[i].body.role != Role::System,
    ensures
        compaction(messages, keep_head, keep_tail) is Some,
{
    lemma_view_positions(messages);
    lemma_visible_positions(messages);
    assert(cut(messages, keep_head, keep_tail) is Some);
    lemma_cut(messages, keep_head, keep_tail);
    let (from, to) = cut(messages, keep_head, keep_tail)->0;
    let middle = messages.subrange(from, to);
    let stays = |m: MessageView| !droppable(m);
    let goes = |m: MessageView| droppable(m);
    let at = visible_positions(messages)[i];
    assert(agent_view(messages)[i] == messages[at]);
    assert(from <= at < to);
    assert(middle[at - from] == messages[at]);
    lemma_filter_keeps(middle, goes, at - from);
    lemma_parts(middle, stays, goes);
    assert(middle.filter(goes).len() > 0);
    law_legal_transcript_can_be_compacted(messages, keep_head, keep_tail);
}

/// The place of a message in the model's view gives its position in the transcript.
proof fn lemma_place(messages: Seq<MessageView>, at: int)
    requires
        0 <= at < messages.len(),
        messages[at].body.agent_visible,
    ensures
        agent_view(messages.take(at)).len() < visible_positions(messages).len(),
        visible_positions(messages)[agent_view(messages.take(at)).len() as int] == at,
{
    let positions = visible_positions(messages);
    lemma_visible_positions(messages);
    let k = choose|k: int| 0 <= k < positions.len() && positions[k] == at;
    lemma_view_positions(messages);
    lemma_view_split(messages, k);
}

/// What stays decides, not what was there: where the model sees more than the head and the tail,
/// something goes, and what stays is legal, that is what stays.
pub proof fn law_what_stays_decides(
    messages: Seq<MessageView>,
    keep_head: int,
    keep_tail: int,
    from: int,
    to: int,
)
    requires
        0 <= keep_head,
        keep_tail >= 1,
        agent_view(messages).len() > keep_head + keep_tail,
        0 <= from <= to < messages.len(),
        messages[from].body.agent_visible && messages[to].body.agent_visible,
        agent_view(messages.take(from)).len() == head_len(messages, keep_head),
        tail_start(messages, keep_head, keep_tail) == Some(
            agent_view(messages.take(to)).len() as int,
        ),
    ensures
        ({
            let kept = messages.take(from) + messages.subrange(from, to).filter(
                |m: MessageView| !m.body.agent_visible || m.body.role == Role::System,
            ) + messages.skip(to);
            &&& kept.len() < messages.len() && pairing_ok(kept) ==> compaction(
                messages,
                keep_head,
                keep_tail,
            ) == Some((kept, (messages.len() - kept.len()) as nat))
            &&& !(kept.len() < messages.len() && pairing_ok(kept)) ==> compaction(
                messages,
                keep_head,
                keep_tail,
            ) is None
        }),
{
    let middle = messages.subrange(from, to);
    lemma_view_positions(messages);
    lemma_place(messages, from);
    lemma_place(messages, to);
    lemma_same_filter(
        middle,
        |m: MessageView| !droppable(m),
        |m: MessageView| !m.body.agent_visible || m.body.role == Role::System,
    );
}

/// When a compaction is due: on new evidence and with no call waiting, at an overflow where
/// anything goes, and at the budget where at least a whole tail goes.
pub proof fn law_when_a_compaction_is_due(
    messages: Seq<MessageView>,
    budget: u32,
    keep_head: int,
    keep_tail: int,
    kept: Seq<MessageView>,
    dropped: nat,
)
    ensures
        due(messages, budget, keep_head, keep_tail) == Some((kept, dropped)) <==> {
            &&& new_evidence(messages)
            &&& pending_calls(messages).len() == 0
            &&& compaction(messages, keep_head, keep_tail) == Some((kept, dropped))
            &&& trigger_for(messages, budget) is Some
            &&& trigger_for(messages, budget) == Some(Trigger::Recover) ==> dropped >= 1
            &&& trigger_for(messages, budget) != Some(Trigger::Recover) ==> dropped >= keep_tail
        },
{
}

/// No compaction is due while the prompt reported last is below the budget and the last request
/// did not overflow, however large an earlier prompt was.
pub proof fn law_below_the_budget_nothing_is_compacted(
    messages: Seq<MessageView>,
    k: int,
    budget: u32,
    keep_head: int,
    keep_tail: int,
)
    requires
        0 <= k < messages.len(),
        messages[k].body.usage matches Some(usage) && usage.prompt < budget,
        forall|j: int| k < j < messages.len() ==> (#[trigger] messages[j]).body.usage is None,
        messages.last().body.error_kind != Some(ErrorKind::ContextLengthExceeded),
    ensures
        trigger_for(messages, budget) is None,
        due(messages, budget, keep_head, keep_tail) is None,
{
    law_why_to_compact(messages, k, budget);
}

/// The step that compacts replaces the conversation by what stays, unchanged and in order, and one
/// mark for the model behind it that names the number of messages that went; the turn goes on.
pub proof fn law_what_a_compaction_leaves(
    result: Option<StepView>,
    kept: Seq<MessageView>,
    dropped: nat,
)
    requires
        replaces(result, kept, dropped),
    ensures
        result is Some,
        !result->0.yield_turn,
        result->0.effects.len() == 1,
        result->0.effects[0] is ReplaceConversation,
        ({
            let out = result->0.effects[0]->ReplaceConversation_0;
            &&& out.len() == kept.len() + 1
            &&& forall|i: int| 0 <= i < kept.len() ==> #[trigger] out[i] == kept[i]
            &&& out.last().body.role == Role::User
            &&& out.last().body.agent_visible && !out.last().body.user_visible
            &&& out.last().body.tool_calls is None && out.last().body.tool_call_id is None
            &&& out.last().body.usage is None && out.last().body.error_kind is None
            &&& is_random_uuid(out.last().id)
            &&& exists|before: Seq<char>, after: Seq<char>|
                out.last().body.content == #[trigger] (before + decimal(dropped) + after)
        }),
{
    let out = result->0.effects[0]->ReplaceConversation_0;
    law_the_mark_tells_how_many_went(dropped, dropped);
    assert(out.last().body.content == "（系统提示：为腾出上下文，更早的 "@ + decimal(dropped)
        + " 条对话已从上下文中移除，你看不到其内容了。如需细节，请重新读取相关文件，或向人类确认。）"@);
    assert forall|i: int| 0 <= i < kept.len() implies #[trigger] out[i] == kept[i] by {
        assert(out.drop_last()[i] == kept[i]);
    }
}

/// What is configured is taken where it is a number, at least one message of the tail stays, and
/// for the rest there are fixed limits.
pub proof fn law_the_limits(text: &str, max: nat, default: nat, n: int)
    ensures
        configured(None, max, default) == default,
        parsed_unsigned(text@, max) is None ==> configured(Some(text), max, default) == default,
        parsed_unsigned(text@, max) matches Some(n) ==> configured(Some(text), max, default) == n,
        clamped(n) >= 1,
        n >= 1 ==> clamped(n) == n,
        n < 1 ==> clamped(n) == 1,
        DEFAULT_TOKEN_BUDGET == 60000,
        DEFAULT_KEEP_HEAD == 1,
        DEFAULT_KEEP_TAIL == 8,
{
}

} // verus!
