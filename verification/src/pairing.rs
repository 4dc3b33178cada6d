//! Tool round trips in the model's view: every declared call is answered before anyone else speaks.

use crate::filter::lemma_filter_source;
use crate::message::{
    answered, calls_of, calls_view, declared_calls, messages_view, pending_calls, Context, Message,
    MessageView, Role, ToolCall, ToolCallView,
};
use crate::text::same_text;
use vstd::prelude::*;

verus! {

/// The identifiers of a row of calls.
pub open spec fn declared_ids(calls: Seq<ToolCallView>) -> Set<Seq<char>> {
    calls.map_values(|c: ToolCallView| c.id).to_set()
}

/// The identifiers of the calls that wait for their result once `message` is read, given those
/// that waited before; `None` once the protocol is broken.
///
/// A result has to settle a waiting call; any other message may only come when no call waits, and
/// the calls that it declares wait from then on. What the model does not see changes nothing.
pub open spec fn pairing_step(
    pending: Option<Set<Seq<char>>>,
    message: MessageView,
) -> Option<Set<Seq<char>>> {
    match pending {
        None => None,
        Some(waiting) => if !message.body.agent_visible {
            Some(waiting)
        } else if message.body.role == Role::Tool {
            match message.body.tool_call_id {
                Some(id) if waiting.contains(id) => Some(waiting.remove(id)),
                _ => None,
            }
        } else if waiting != Set::<Seq<char>>::empty() {
            None
        } else {
            match message.body.tool_calls {
                Some(calls) => Some(declared_ids(calls)),
                None => Some(Set::empty()),
            }
        },
    }
}

/// The calls that wait after a row of messages, starting from `start`.
pub open spec fn pairing_from(
    start: Option<Set<Seq<char>>>,
    messages: Seq<MessageView>,
) -> Option<Set<Seq<char>>>
    decreases messages.len(),
{
    if messages.len() == 0 {
        start
    } else {
        pairing_step(pairing_from(start, messages.drop_last()), messages.last())
    }
}

/// The calls that wait after a row of messages.
pub open spec fn pairing_after(messages: Seq<MessageView>) -> Option<Set<Seq<char>>> {
    pairing_from(Some(Set::empty()), messages)
}

/// No result without its call, no call without its result, nothing in between.
pub open spec fn pairing_ok(messages: Seq<MessageView>) -> bool {
    pairing_after(messages) == Some(Set::<Seq<char>>::empty())
}

/// The identifiers in a row of borrowed strings.
spec fn ids(pending: Seq<&String>) -> Seq<Seq<char>> {
    pending.map_values(|s: &String| s@)
}

fn find(pending: &Vec<&String>, id: &str) -> (r: Option<usize>)
    ensures
        match r {
            Some(i) => i < pending@.len() && ids(pending@)[i as int] == id@,
            None => !ids(pending@).contains(id@),
        },
{
    let mut i: usize = 0;
    while i < pending.len()
        invariant
            i <= pending@.len(),
            forall|k: int| 0 <= k < i ==> ids(pending@)[k] != id@,
        decreases pending@.len() - i,
    {
        if same_text(pending[i].as_str(), id) {
            return Some(i);
        }
        i += 1;
    }
    None
}

/// The distinct identifiers of a row of calls.
fn ids_of(calls: &Vec<ToolCall>) -> (r: Vec<&String>)
    ensures
        ids(r@).no_duplicates(),
        ids(r@).to_set() == declared_ids(calls_view(calls@)),
{
    let mut r: Vec<&String> = Vec::new();
    let ghost all = calls_view(calls@).map_values(|c: ToolCallView| c.id);
    let mut i: usize = 0;
    assert(ids(r@) =~= Seq::empty());
    assert(all.take(0) =~= Seq::empty());
    while i < calls.len()
        invariant
            i <= calls@.len(),
            all == calls_view(calls@).map_values(|c: ToolCallView| c.id),
            ids(r@).no_duplicates(),
            ids(r@).to_set() =~= all.take(i as int).to_set(),
        decreases calls@.len() - i,
    {
        let id = &calls[i].id;
        let ghost before = ids(r@);
        proof {
            assert(all.take(i + 1) =~= all.take(i as int).push(id@));
            all.take(i as int).lemma_push_to_set_commute(id@);
        }
        match find(&r, id.as_str()) {
            Some(k) => {
                assert(before.to_set().contains(id@)) by {
                    assert(before.contains(before[k as int]));
                }
                assert(all.take(i as int).to_set().insert(id@) =~= all.take(i as int).to_set());
            },
            None => {
                r.push(id);
                proof {
                    assert(ids(r@) =~= before.push(id@));
                    before.lemma_push_to_set_commute(id@);
                    assert forall|a: int, b: int|
                        0 <= a < ids(r@).len() && 0 <= b < ids(r@).len() && a != b implies ids(
                        r@,
                    )[a] != ids(r@)[b] by {
                        if a < before.len() {
                            assert(before.contains(before[a]));
                        }
                        if b < before.len() {
                            assert(before.contains(before[b]));
                        }
                    }
                }
            },
        }
        i += 1;
    }
    assert(all.take(calls@.len() as int) =~= all);
    r
}

proof fn lemma_remove_id(s: Seq<Seq<char>>, i: int)
    requires
        s.no_duplicates(),
        0 <= i < s.len(),
    ensures
        s.remove(i).no_duplicates(),
        s.remove(i).to_set() == s.to_set().remove(s[i]),
{
    let t = s.remove(i);
    assert forall|x: Seq<char>| t.to_set().contains(x) == s.to_set().remove(s[i]).contains(x) by {
        if t.contains(x) {
            let k = choose|k: int| 0 <= k < t.len() && t[k] == x;
            if k < i {
                assert(s[k] == x);
            } else {
                assert(s[k + 1] == x);
            }
        }
        if s.contains(x) && x != s[i] {
            let k = choose|k: int| 0 <= k < s.len() && s[k] == x;
            if k < i {
                assert(t[k] == x);
            } else {
                assert(t[k - 1] == x);
            }
        }
    }
    assert(t.to_set() =~= s.to_set().remove(s[i]));
}

proof fn lemma_no_ids(s: Seq<Seq<char>>)
    ensures
        s.to_set() == Set::<Seq<char>>::empty() <==> s.len() == 0,
{
    if s.len() == 0 {
        assert(s.to_set() =~= Set::empty());
    } else {
        assert(s.contains(s[0]));
        assert(s.to_set().contains(s[0]));
    }
}

proof fn lemma_broken_stays_broken(messages: Seq<MessageView>, k: int)
    requires
        0 <= k <= messages.len(),
        pairing_after(messages.take(k)) is None,
    ensures
        pairing_after(messages) is None,
    decreases messages.len(),
{
    if k == messages.len() {
        assert(messages.take(k) =~= messages);
    } else {
        assert(messages.drop_last().take(k) =~= messages.take(k));
        lemma_broken_stays_broken(messages.drop_last(), k);
    }
}

/// Are the tool round trips in the model's view complete and undisturbed?
///
/// Unlike a look at the pending calls alone, this also finds a result whose call is gone.
pub fn tool_pairing_intact(messages: &[Message]) -> (r: bool)
    ensures
        r == pairing_ok(messages_view(messages@)),
{
    let ghost view = messages_view(messages@);
    let mut pending: Vec<&String> = Vec::new();
    let mut i: usize = 0;
    proof {
        assert(view.take(0) =~= Seq::empty());
        assert(ids(pending@) =~= Seq::empty());
        lemma_no_ids(ids(pending@));
    }
    while i < messages.len()
        invariant
            i <= messages@.len(),
            view == messages_view(messages@),
            ids(pending@).no_duplicates(),
            pairing_after(view.take(i as int)) == Some(ids(pending@).to_set()),
        decreases messages@.len() - i,
    {
        let message = &messages[i];
        let ghost before = ids(pending@);
        proof {
            assert(view.take(i + 1).drop_last() =~= view.take(i as int));
            assert(view.take(i + 1).last() == message@);
            lemma_no_ids(before);
        }
        i += 1;
        if !message.agent_visible {
            continue;
        }
        if message.role == Role::Tool {
            let id = match &message.tool_call_id {
                Some(id) => id,
                None => {
                    proof {
                        lemma_broken_stays_broken(view, i as int);
                    }
                    return false;
                },
            };
            match find(&pending, id.as_str()) {
                Some(k) => {
                    assert(before.contains(before[k as int]));
                    pending.remove(k);
                    proof {
                        assert(ids(pending@) =~= before.remove(k as int));
                        lemma_remove_id(before, k as int);
                    }
                },
                None => {
                    proof {
                        lemma_broken_stays_broken(view, i as int);
                    }
                    return false;
                },
            }
            continue;
        }
        if pending.len() > 0 {
            proof {
                lemma_broken_stays_broken(view, i as int);
            }
            return false;
        }
        if let Some(calls) = &message.tool_calls {
            pending = ids_of(calls);
        }
    }
    proof {
        assert(view.take(messages@.len() as int) =~= view);
        lemma_no_ids(ids(pending@));
    }
    pending.len() == 0
}

impl Context {
    /// Are the tool round trips in the model's view complete and undisturbed?
    pub fn pairing_intact(&self) -> (r: bool)
        ensures
            r == pairing_ok(self@),
    {
        tool_pairing_intact(self.messages.as_slice())
    }
}

/// The model sees the message at `j`, and it declares the call `id`.
pub open spec fn declares(messages: Seq<MessageView>, j: int, id: Seq<char>) -> bool {
    &&& 0 <= j < messages.len()
    &&& messages[j].body.agent_visible
    &&& messages[j].body.role != Role::Tool
    &&& messages[j].body.tool_calls matches Some(calls) && declared_ids(calls).contains(id)
}

/// The model sees the message at `i`, and it is the result of the call `id`.
pub open spec fn answers(messages: Seq<MessageView>, i: int, id: Seq<char>) -> bool {
    &&& 0 <= i < messages.len()
    &&& messages[i].body.agent_visible
    &&& messages[i].body.role == Role::Tool
    &&& messages[i].body.tool_call_id == Some(id)
}

/// Strictly between `j` and `i` the model sees tool results alone.
pub open spec fn only_results_between(messages: Seq<MessageView>, j: int, i: int) -> bool {
    forall|k: int|
        j < k < i && 0 <= k < messages.len() && (#[trigger] messages[k]).body.agent_visible
            ==> messages[k].body.role == Role::Tool
}

/// Reading two rows of messages one after the other is reading them joined.
pub proof fn lemma_pairing_join(
    start: Option<Set<Seq<char>>>,
    a: Seq<MessageView>,
    b: Seq<MessageView>,
)
    ensures
        pairing_from(start, a + b) == pairing_from(pairing_from(start, a), b),
    decreases b.len(),
{
    if b.len() == 0 {
        assert(a + b =~= a);
    } else {
        assert((a + b).drop_last() =~= a + b.drop_last());
        lemma_pairing_join(start, a, b.drop_last());
    }
}

/// Every prefix of a legal row of messages is unbroken.
pub proof fn lemma_prefix_unbroken(messages: Seq<MessageView>, k: int)
    requires
        pairing_after(messages) is Some,
        0 <= k <= messages.len(),
    ensures
        pairing_after(messages.take(k)) is Some,
{
    if pairing_after(messages.take(k)) is None {
        lemma_broken_stays_broken(messages, k);
    }
}

/// One more message is one more step.
pub proof fn lemma_pairing_next(messages: Seq<MessageView>, k: int)
    requires
        0 <= k < messages.len(),
    ensures
        pairing_after(messages.take(k + 1)) == pairing_step(
            pairing_after(messages.take(k)),
            messages[k],
        ),
{
    assert(messages.take(k + 1).drop_last() =~= messages.take(k));
}

/// The call `id` waits for its result once the first `k` messages are read: it was declared, the
/// model saw nothing but results since, and none of them is its own.
pub open spec fn waits(messages: Seq<MessageView>, k: int, id: Seq<char>) -> bool {
    exists|j: int| #[trigger] waits_since(messages, j, k, id)
}

/// The call `id` that the message at `j` declares waits once the first `k` messages are read.
pub open spec fn waits_since(messages: Seq<MessageView>, j: int, k: int, id: Seq<char>) -> bool {
    &&& j < k
    &&& declares(messages, j, id)
    &&& only_results_between(messages, j, k)
    &&& forall|i: int| j < i < k ==> !#[trigger] answers(messages, i, id)
}

/// Reading the messages one by one keeps track of just the calls that wait.
pub proof fn lemma_waiting(messages: Seq<MessageView>, k: int, id: Seq<char>)
    requires
        0 <= k <= messages.len(),
        pairing_after(messages.take(k)) is Some,
    ensures
        (pairing_after(messages.take(k))->0).contains(id) <==> waits(messages, k, id),
    decreases k,
{
    if k == 0 {
        assert(messages.take(0) =~= Seq::empty());
    } else {
        lemma_pairing_next(messages, k - 1);
        lemma_waiting(messages, k - 1, id);
        let before = pairing_after(messages.take(k - 1))->0;
        let last = messages[k - 1];
        if waits(messages, k, id) {
            let j = choose|j: int| #[trigger] waits_since(messages, j, k, id);
            if j < k - 1 {
                assert(waits_since(messages, j, k - 1, id));
                assert(!answers(messages, k - 1, id));
            }
        }
        if !last.body.agent_visible || last.body.role == Role::Tool {
            if waits(messages, k - 1, id) && !answers(messages, k - 1, id) {
                let j = choose|j: int| #[trigger] waits_since(messages, j, k - 1, id);
                assert(waits_since(messages, j, k, id));
            }
        } else if declares(messages, k - 1, id) {
            assert(waits_since(messages, k - 1, k, id));
        }
    }
}

/// Every result that the model sees answers a call of the last message before it that is no
/// result.
pub open spec fn results_have_calls(messages: Seq<MessageView>) -> bool {
    forall|i: int|
        0 <= i < messages.len() && (#[trigger] messages[i]).body.agent_visible
            && messages[i].body.role == Role::Tool ==> messages[i].body.tool_call_id is Some
            && exists|j: int|
            #![trigger declares(messages, j, messages[i].body.tool_call_id->0)]
            j < i && declares(messages, j, messages[i].body.tool_call_id->0)
                && only_results_between(messages, j, i)
}

/// No call is answered twice before anyone else speaks.
pub open spec fn results_are_single(messages: Seq<MessageView>) -> bool {
    forall|i: int, k: int, id: Seq<char>|
        i < k && #[trigger] answers(messages, i, id) && #[trigger] answers(messages, k, id)
            ==> !only_results_between(messages, i, k)
}

/// Every declared call is answered before anyone else speaks.
pub open spec fn calls_have_results(messages: Seq<MessageView>) -> bool {
    forall|j: int, id: Seq<char>| #[trigger]
        declares(messages, j, id) ==> exists|i: int|
            #![trigger answers(messages, i, id)]
            j < i && answers(messages, i, id) && only_results_between(messages, j, i)
}

proof fn lemma_unbroken(messages: Seq<MessageView>, k: int)
    requires
        0 <= k <= messages.len(),
        results_have_calls(messages),
        results_are_single(messages),
        calls_have_results(messages),
    ensures
        pairing_after(messages.take(k)) is Some,
    decreases k,
{
    if k == 0 {
        assert(messages.take(0) =~= Seq::empty());
    } else {
        lemma_unbroken(messages, k - 1);
        lemma_pairing_next(messages, k - 1);
        let before = pairing_after(messages.take(k - 1))->0;
        let last = messages[k - 1];
        if last.body.agent_visible && last.body.role == Role::Tool {
            let id = last.body.tool_call_id->0;
            let j = choose|j: int|
                #![trigger declares(messages, j, id)]
                j < k - 1 && declares(messages, j, id) && only_results_between(messages, j, k - 1);
            assert(answers(messages, k - 1, id));
            assert forall|i: int| j < i < k - 1 implies !#[trigger] answers(messages, i, id) by {
                if answers(messages, i, id) {
                    assert(only_results_between(messages, i, k - 1));
                }
            }
            assert(waits_since(messages, j, k - 1, id));
            lemma_waiting(messages, k - 1, id);
        } else if last.body.agent_visible {
            assert forall|id: Seq<char>| !before.contains(id) by {
                lemma_waiting(messages, k - 1, id);
                lemma_waits_no_more(messages, k - 1, id);
            }
            assert(before =~= Set::empty());
        }
    }
}

/// Where every call is answered in time, none waits when someone else speaks, nor at the end.
proof fn lemma_waits_no_more(messages: Seq<MessageView>, k: int, id: Seq<char>)
    requires
        0 <= k <= messages.len(),
        calls_have_results(messages),
        k < messages.len() ==> messages[k].body.agent_visible && messages[k].body.role
            != Role::Tool,
    ensures
        !waits(messages, k, id),
{
    if waits(messages, k, id) {
        let j = choose|j: int| #[trigger] waits_since(messages, j, k, id);
        let i = choose|i: int|
            #![trigger answers(messages, i, id)]
            j < i && answers(messages, i, id) && only_results_between(messages, j, i);
        assert(i >= k);
        if i > k {
            assert(messages[k].body.role == Role::Tool);
        }
    }
}

/// What makes a transcript legal: every result has its call, no call two results, every call its
/// result, and nobody else speaks in between.
pub proof fn law_legal_round_trips(messages: Seq<MessageView>)
    ensures
        pairing_ok(messages) <==> {
            &&& results_have_calls(messages)
            &&& results_are_single(messages)
            &&& calls_have_results(messages)
        },
{
    assert(messages.take(messages.len() as int) =~= messages);
    if pairing_ok(messages) {
        assert forall|i: int|
            0 <= i < messages.len() && (#[trigger] messages[i]).body.agent_visible
                && messages[i].body.role == Role::Tool implies messages[i].body.tool_call_id is Some
            && exists|j: int|
            #![trigger declares(messages, j, messages[i].body.tool_call_id->0)]
            j < i && declares(messages, j, messages[i].body.tool_call_id->0)
                && only_results_between(messages, j, i) by {
            law_every_result_has_its_call(messages, i);
        }
        assert forall|i: int, k: int, id: Seq<char>|
            i < k && #[trigger] answers(messages, i, id) && #[trigger] answers(
                messages,
                k,
                id,
            ) implies !only_results_between(messages, i, k) by {
            if only_results_between(messages, i, k) {
                lemma_answered_in_time(messages, k, id);
                let j = choose|j: int| #[trigger] waits_since(messages, j, k, id);
                if j < i {
                    assert(!answers(messages, i, id));
                } else if j > i {
                    assert(messages[j].body.role == Role::Tool);
                }
            }
        }
        assert forall|j: int, id: Seq<char>| #[trigger] declares(messages, j, id) implies exists|
            i: int,
        |
            #![trigger answers(messages, i, id)]
            j < i && answers(messages, i, id) && only_results_between(messages, j, i) by {
            law_every_call_has_its_result(messages, j, id);
        }
    }
    if results_have_calls(messages) && results_are_single(messages) && calls_have_results(
        messages,
    ) {
        let n = messages.len() as int;
        lemma_unbroken(messages, n);
        let left = pairing_after(messages)->0;
        assert forall|id: Seq<char>| !left.contains(id) by {
            lemma_waiting(messages, n, id);
            lemma_waits_no_more(messages, n, id);
        }
        assert(left =~= Set::empty());
    }
}

/// A result in an unbroken transcript answers a call that waits.
proof fn lemma_answered_in_time(messages: Seq<MessageView>, i: int, id: Seq<char>)
    requires
        pairing_after(messages) is Some,
        answers(messages, i, id),
    ensures
        waits(messages, i, id),
{
    lemma_prefix_unbroken(messages, i);
    lemma_prefix_unbroken(messages, i + 1);
    lemma_pairing_next(messages, i);
    lemma_waiting(messages, i, id);
}

proof fn lemma_waiting_gets_answered(
    messages: Seq<MessageView>,
    j: int,
    k: int,
    id: Seq<char>,
) -> (i: int)
    requires
        pairing_ok(messages),
        0 <= j < k <= messages.len(),
        pairing_after(messages.take(k)) matches Some(waiting) && waiting.contains(id),
        only_results_between(messages, j, k),
    ensures
        k <= i,
        answers(messages, i, id),
        only_results_between(messages, j, i),
    decreases messages.len() - k,
{
    if k == messages.len() {
        assert(messages.take(k) =~= messages);
        k
    } else {
        lemma_pairing_next(messages, k);
        lemma_prefix_unbroken(messages, k + 1);
        if answers(messages, k, id) {
            k
        } else {
            lemma_waiting_gets_answered(messages, j, k + 1, id)
        }
    }
}

/// In a legal transcript no result stands without its call: the call was declared before it, and
/// the model sees nothing but results in between.
pub proof fn law_every_result_has_its_call(messages: Seq<MessageView>, i: int)
    requires
        pairing_ok(messages),
        0 <= i < messages.len(),
        messages[i].body.agent_visible,
        messages[i].body.role == Role::Tool,
    ensures
        messages[i].body.tool_call_id is Some,
        exists|j: int|
            #![trigger declares(messages, j, messages[i].body.tool_call_id->0)]
            j < i && declares(messages, j, messages[i].body.tool_call_id->0)
                && only_results_between(messages, j, i),
{
    lemma_prefix_unbroken(messages, i);
    lemma_prefix_unbroken(messages, i + 1);
    lemma_pairing_next(messages, i);
    let id = messages[i].body.tool_call_id->0;
    assert(answers(messages, i, id));
    lemma_answered_in_time(messages, i, id);
    let j = choose|j: int| #[trigger] waits_since(messages, j, i, id);
    assert(declares(messages, j, id));
}

/// In a legal transcript every declared call has its result: it comes after the call, and the
/// model sees nothing but results in between.
pub proof fn law_every_call_has_its_result(messages: Seq<MessageView>, j: int, id: Seq<char>)
    requires
        pairing_ok(messages),
        declares(messages, j, id),
    ensures
        exists|i: int|
            #![trigger answers(messages, i, id)]
            j < i && answers(messages, i, id) && only_results_between(messages, j, i),
{
    lemma_prefix_unbroken(messages, j);
    lemma_prefix_unbroken(messages, j + 1);
    lemma_pairing_next(messages, j);
    let i = lemma_waiting_gets_answered(messages, j, j + 1, id);
    assert(answers(messages, i, id));
}

/// In a legal transcript no call waits for its result, as long as the model sees every message
/// that declares calls.
pub proof fn law_legal_transcript_has_no_pending_calls(messages: Seq<MessageView>)
    requires
        pairing_ok(messages),
        forall|j: int|
            0 <= j < messages.len() && calls_of(#[trigger] messages[j]).len() > 0
                ==> messages[j].body.agent_visible,
    ensures
        pending_calls(messages).len() == 0,
{
    let all = declared_calls(messages);
    let p = |c: ToolCallView| !answered(messages, c.id);
    assert forall|n: int| 0 <= n < all.len() implies !p(#[trigger] all[n]) by {
        let (j, m) = lemma_declared_somewhere(messages, n);
        let id = all[n].id;
        let calls = calls_of(messages[j]);
        let names = calls.map_values(|c: ToolCallView| c.id);
        assert(names[m] == id);
        assert(names.contains(id));
        law_every_call_has_its_result(messages, j, id);
        let i = choose|i: int|
            #![trigger answers(messages, i, id)]
            j < i && answers(messages, i, id) && only_results_between(messages, j, i);
        assert(messages[i].body.role == Role::Tool);
    }
    if all.filter(p).len() > 0 {
        let c = all.filter(p)[0];
        all.lemma_filter_pred(p, 0);
        lemma_filter_source(all, p, 0);
    }
}

/// Each declared call stands in one of the messages.
pub proof fn lemma_declared_somewhere(messages: Seq<MessageView>, n: int) -> (place: (int, int))
    requires
        0 <= n < declared_calls(messages).len(),
    ensures
        0 <= place.0 < messages.len(),
        0 <= place.1 < calls_of(messages[place.0]).len(),
        calls_of(messages[place.0])[place.1] == declared_calls(messages)[n],
    decreases messages.len(),
{
    let rest = declared_calls(messages.drop_last());
    if n < rest.len() {
        lemma_declared_somewhere(messages.drop_last(), n)
    } else {
        (messages.len() - 1, n - rest.len())
    }
}

} // verus!
