//! Events as text for a human.

use crate::events::{AgentEvent, EventView};
use crate::laws::rendering::law_the_question_holds_every_call_whole;
use crate::message::{calls_view, question_head, question_tail, Role, ToolCall, ToolCallView};
use crate::provider_error::ErrorKind;
use crate::text::{decimal, has_substring, to_decimal};
use vstd::prelude::*;
use vstd::string::*;

verus! {

/// An upstream fault, worded by its cause around the words of the upstream.
pub open spec fn fault_text(kind: ErrorKind, detail: Seq<char>) -> Seq<char> {
    match kind {
        ErrorKind::AuthOrQuota => "⚠️ 上游拒绝了本次请求（凭据无效或余额耗尽，本进程内重试无用）："@ + detail
            + "\n   修好凭据后 exit，再用 cargo run -- --continue 接着聊，历史不会丢。"@,
        ErrorKind::RateLimited => "⚠️ 上游限流："@ + detail
            + "\n   稍等片刻再发一次即可，历史与用量都已保留。"@,
        ErrorKind::ContextLengthExceeded => "⚠️ 上下文超出模型上限："@ + detail
            + "\n   已尝试压缩历史自愈；若连续失败，请 exit 后 --continue，或换个上下文更大的模型。"@,
        ErrorKind::Transport => "⚠️ 与上游的连接异常："@ + detail,
        ErrorKind::Unknown => "⚠️ 上游调用失败（病因未识别）："@ + detail,
    }
}

/// One line of a list of calls.
pub open spec fn call_line(call: ToolCallView) -> Seq<char> {
    "   • ["@ + call.name + "] "@ + call.arguments + "\n"@
}

/// A list of calls, one on each line.
pub open spec fn call_lines(calls: Seq<ToolCallView>) -> Seq<char>
    decreases calls.len(),
{
    if calls.len() == 0 {
        Seq::empty()
    } else {
        call_lines(calls.drop_last()) + call_line(calls.last())
    }
}

/// The question whether risky calls may run.
pub open spec fn approval_text(calls: Seq<ToolCallView>) -> Seq<char> {
    question_head() + call_lines(calls) + question_tail()
}

/// The text of an event for a human; `None` where there is nothing to show.
///
/// Of messages only what the assistant says is shown, and upstream faults: what the human typed is
/// on the screen already, tool results are too long, and records that the human does not see are
/// none of the conversation.
pub open spec fn shown(event: EventView) -> Option<Seq<char>> {
    match event {
        EventView::MessageAppended { message } => if !message.body.user_visible
            || message.body.content.len() == 0 {
            None
        } else {
            match message.body.error_kind {
                Some(kind) => Some(fault_text(kind, message.body.content)),
                None => if message.body.role == Role::Assistant {
                    Some(message.body.content)
                } else {
                    None
                },
            }
        },
        EventView::ToolStarted { tool, arguments, .. } => Some(
            "  ⚡ ["@ + tool + "] "@ + arguments,
        ),
        EventView::ApprovalRequested { calls } => Some("\n"@ + approval_text(calls)),
        EventView::HistoryReplaced { before, after } => Some(
            "\n〔历史已压缩：模型可见消息 "@ + decimal(before) + " 条 → "@ + decimal(after)
                + " 条〕\n"@,
        ),
        EventView::RunStarted => None,
        EventView::RunFinished => None,
        EventView::OperationApplied { .. } => None,
        EventView::ToolFinished { .. } => None,
    }
}

/// An upstream fault, worded by its cause around the words of the upstream.
pub fn render_upstream_error(kind: ErrorKind, detail: &str) -> (r: String)
    ensures
        r@ == fault_text(kind, detail@),
{
    let (before, after) = match kind {
        ErrorKind::AuthOrQuota => (
            "⚠️ 上游拒绝了本次请求（凭据无效或余额耗尽，本进程内重试无用）：",
            "\n   修好凭据后 exit，再用 cargo run -- --continue 接着聊，历史不会丢。",
        ),
        ErrorKind::RateLimited => (
            "⚠️ 上游限流：",
            "\n   稍等片刻再发一次即可，历史与用量都已保留。",
        ),
        ErrorKind::ContextLengthExceeded => (
            "⚠️ 上下文超出模型上限：",
            "\n   已尝试压缩历史自愈；若连续失败，请 exit 后 --continue，或换个上下文更大的模型。",
        ),
        ErrorKind::Transport => ("⚠️ 与上游的连接异常：", ""),
        ErrorKind::Unknown => ("⚠️ 上游调用失败（病因未识别）：", ""),
    };
    let mut r = before.to_owned();
    r.append(detail);
    r.append(after);
    proof {
        reveal_strlit("");
        assert(r@ =~= fault_text(kind, detail@));
    }
    r
}

/// The question whether risky calls may run.
pub fn ask_approval(calls: &Vec<ToolCall>) -> (r: String)
    ensures
        r@ == approval_text(calls_view(calls@)),
        forall|i: int|
            0 <= i < calls@.len() ==> has_substring(r@, (#[trigger] calls@[i]).name@)
                && has_substring(r@, calls@[i].arguments@),
{
    let mut r = String::new();
    r.append("⚠️  检测到高危操作，已暂停执行，等待你裁决：\n");
    let ghost head = r@;
    let ghost all = calls_view(calls@);
    let mut i: usize = 0;
    assert(head =~= "⚠️  检测到高危操作，已暂停执行，等待你裁决：\n"@);
    assert(all.take(0) =~= Seq::empty());
    assert(head + call_lines(all.take(0)) =~= head);
    while i < calls.len()
        invariant
            i <= calls@.len(),
            all == calls_view(calls@),
            r@ == head + call_lines(all.take(i as int)),
        decreases calls@.len() - i,
    {
        let call = &calls[i];
        proof {
            assert(all.take(i + 1).drop_last() =~= all.take(i as int));
            assert(all.take(i + 1).last() == call@);
        }
        r.append("   • [");
        r.append(call.name.as_str());
        r.append("] ");
        r.append(call.arguments.as_str());
        r.append("\n");
        i += 1;
        assert(r@ =~= head + call_lines(all.take(i as int)));
    }
    assert(all.take(calls@.len() as int) =~= all);
    r.append("\n输入 y 允许执行；其它任意输入均视为拒绝");
    proof {
        assert forall|i: int| 0 <= i < calls@.len() implies has_substring(
            r@,
            (#[trigger] calls@[i]).name@,
        ) && has_substring(r@, calls@[i].arguments@) by {
            law_the_question_holds_every_call_whole(all, i);
            assert(all[i] == calls@[i]@);
        }
    }
    r
}

/// The text of an event for a human; `None` where there is nothing to show.
pub fn render_text(event: &AgentEvent) -> (r: Option<String>)
    ensures
        match r {
            Some(text) => shown(event@) == Some(text@),
            None => shown(event@) is None,
        },
{
    match event {
        AgentEvent::MessageAppended { message } => {
            if !message.user_visible || message.content.as_str().is_empty() {
                return None;
            }
            if let Some(kind) = message.error_kind {
                return Some(render_upstream_error(kind, message.content.as_str()));
            }
            if message.role == Role::Assistant {
                Some(message.content.clone())
            } else {
                None
            }
        },
        AgentEvent::ToolStarted { tool, arguments, .. } => {
            let mut text = String::new();
            text.append("  ⚡ [");
            text.append(tool.as_str());
            text.append("] ");
            text.append(arguments.as_str());
            assert(text@ =~= "  ⚡ ["@ + tool@ + "] "@ + arguments@);
            Some(text)
        },
        AgentEvent::ApprovalRequested { calls } => {
            let mut text = String::new();
            text.append("\n");
            text.append(ask_approval(calls).as_str());
            assert(text@ =~= "\n"@ + approval_text(calls_view(calls@)));
            Some(text)
        },
        AgentEvent::HistoryReplaced { before, after } => {
            let mut text = String::new();
            text.append("\n〔历史已压缩：模型可见消息 ");
            text.append(to_decimal(*before as u64).as_str());
            text.append(" 条 → ");
            text.append(to_decimal(*after as u64).as_str());
            text.append(" 条〕\n");
            assert(text@ =~= "\n〔历史已压缩：模型可见消息 "@ + decimal(*before as nat) + " 条 → "@ + decimal(
                *after as nat,
            ) + " 条〕\n"@);
            Some(text)
        },
        AgentEvent::RunStarted | AgentEvent::RunFinished | AgentEvent::OperationApplied { .. }
        | AgentEvent::ToolFinished { .. } => None,
    }
}

} // verus!
