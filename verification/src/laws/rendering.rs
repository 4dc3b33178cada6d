//! What a human gets to see of the events.

use crate::events::EventView;
use crate::message::{error_body, question_head, question_tail, MessageView, Role, ToolCallView};
use crate::provider_error::ErrorKind;
use crate::render::{approval_text, call_line, call_lines, fault_text, shown};
use crate::text::{decimal, has_substring, occurs_at};
use vstd::prelude::*;

verus! {

/// Of messages only what the human may see is shown: words of the assistant and faults.
pub proof fn law_only_visible_words_are_shown(message: MessageView)
    ensures
        shown(EventView::MessageAppended { message }) is Some ==> message.body.user_visible && (
        message.body.role == Role::Assistant || message.body.error_kind is Some),
{
}

/// A fault is shown, in the words of the upstream.
pub proof fn law_faults_are_shown(message: MessageView, kind: ErrorKind, detail: Seq<char>)
    requires
        message.body == error_body(kind, detail),
        detail.len() > 0,
    ensures
        shown(EventView::MessageAppended { message }) matches Some(text) && has_substring(
            text,
            detail,
        ),
{
    let text = fault_text(kind, detail);
    match kind {
        ErrorKind::AuthOrQuota => lemma_inside(
            "⚠️ 上游拒绝了本次请求（凭据无效或余额耗尽，本进程内重试无用）："@,
            detail,
            "\n   修好凭据后 exit，再用 cargo run -- --continue 接着聊，历史不会丢。"@,
        ),
        ErrorKind::RateLimited => lemma_inside(
            "⚠️ 上游限流："@,
            detail,
            "\n   稍等片刻再发一次即可，历史与用量都已保留。"@,
        ),
        ErrorKind::ContextLengthExceeded => lemma_inside(
            "⚠️ 上下文超出模型上限："@,
            detail,
            "\n   已尝试压缩历史自愈；若连续失败，请 exit 后 --continue，或换个上下文更大的模型。"@,
        ),
        ErrorKind::Transport => {
            lemma_inside("⚠️ 与上游的连接异常："@, detail, Seq::empty());
            assert(text + Seq::<char>::empty() =~= text);
        },
        ErrorKind::Unknown => {
            lemma_inside("⚠️ 上游调用失败（病因未识别）："@, detail, Seq::empty());
            assert(text + Seq::<char>::empty() =~= text);
        },
    }
}

/// What stands between two texts stands in the whole.
proof fn lemma_inside(before: Seq<char>, middle: Seq<char>, after: Seq<char>)
    ensures
        has_substring(before + middle + after, middle),
{
    let all = before + middle + after;
    assert(all.subrange(before.len() as int, (before.len() + middle.len()) as int) =~= middle);
    assert(occurs_at(all, middle, before.len() as int));
}

/// What stands in a part stands in the whole.
proof fn lemma_wider(before: Seq<char>, part: Seq<char>, after: Seq<char>, middle: Seq<char>)
    requires
        has_substring(part, middle),
    ensures
        has_substring(before + part + after, middle),
{
    let at = choose|at: int| occurs_at(part, middle, at);
    let all = before + part + after;
    let there = before.len() + at;
    assert(all.subrange(there, there + middle.len()) =~= part.subrange(at, at + middle.len()));
    assert(occurs_at(all, middle, there));
}

proof fn lemma_call_listed(calls: Seq<ToolCallView>, i: int)
    requires
        0 <= i < calls.len(),
    ensures
        has_substring(call_lines(calls), call_line(calls[i])),
    decreases calls.len(),
{
    let earlier = calls.drop_last();
    let line = call_line(calls.last());
    let nothing = Seq::<char>::empty();
    if i < earlier.len() {
        lemma_call_listed(earlier, i);
        lemma_wider(nothing, call_lines(earlier), line, call_line(calls[i]));
        assert(nothing + call_lines(earlier) + line =~= call_lines(calls));
    } else {
        lemma_inside(call_lines(earlier), line, nothing);
        assert(call_lines(earlier) + line + nothing =~= call_lines(calls));
    }
}

/// A request for approval shows every call, with its tool and its arguments.
pub proof fn law_every_call_is_shown_for_approval(calls: Seq<ToolCallView>, i: int)
    requires
        0 <= i < calls.len(),
    ensures
        shown(EventView::ApprovalRequested { calls }) matches Some(text) && has_substring(
            text,
            call_line(calls[i]),
        ),
{
    lemma_call_listed(calls, i);
    lemma_wider(question_head(), call_lines(calls), question_tail(), call_line(calls[i]));
    lemma_wider("\n"@, approval_text(calls), Seq::empty(), call_line(calls[i]));
    assert("\n"@ + approval_text(calls) + Seq::<char>::empty() =~= "\n"@ + approval_text(calls));
}

/// Whoever is asked sees the whole of what is to run: the name of the tool and all of the
/// arguments, to the last character, stand in the question and in what is shown of the request.
pub proof fn law_the_question_holds_every_call_whole(calls: Seq<ToolCallView>, i: int)
    requires
        0 <= i < calls.len(),
    ensures
        exists|before: Seq<char>, after: Seq<char>|
            approval_text(calls) == #[trigger] (before + ("["@ + calls[i].name + "] "@
                + calls[i].arguments + "\n"@) + after),
        has_substring(approval_text(calls), calls[i].name),
        has_substring(approval_text(calls), calls[i].arguments),
        shown(EventView::ApprovalRequested { calls }) matches Some(text) && has_substring(
            text,
            calls[i].name,
        ) && has_substring(text, calls[i].arguments),
{
    let name = calls[i].name;
    let arguments = calls[i].arguments;
    let line = call_line(calls[i]);
    let text = approval_text(calls);
    let nothing = Seq::<char>::empty();
    let listed = "["@ + name + "] "@ + arguments + "\n"@;
    lemma_call_listed(calls, i);
    lemma_wider(question_head(), call_lines(calls), question_tail(), line);
    let at = choose|at: int| occurs_at(text, line, at);
    let before = text.take(at) + "   • "@;
    let after = text.skip(at + line.len());
    reveal_strlit("   • [");
    reveal_strlit("   • ");
    reveal_strlit("[");
    assert("   • ["@ =~= "   • "@ + "["@);
    assert(text =~= text.take(at) + line + after);
    assert(line =~= "   • "@ + listed);
    assert(text =~= before + listed + after);
    lemma_inside("   • ["@, name, "] "@ + arguments + "\n"@);
    assert("   • ["@ + name + ("] "@ + arguments + "\n"@) =~= line);
    lemma_inside("   • ["@ + name + "] "@, arguments, "\n"@);
    lemma_wider(text.take(at), line, after, name);
    lemma_wider(text.take(at), line, after, arguments);
    lemma_wider("\n"@, text, nothing, name);
    lemma_wider("\n"@, text, nothing, arguments);
    assert("\n"@ + text + nothing =~= "\n"@ + text);
}

/// The question grows by one line for each call and keeps all the rest; around the lines it asks
/// for a decision and says how to give one.
pub proof fn law_one_line_for_each_call(calls: Seq<ToolCallView>, call: ToolCallView)
    ensures
        approval_text(Seq::empty())
            == "⚠️  检测到高危操作，已暂停执行，等待你裁决：\n"@
            + "\n输入 y 允许执行；其它任意输入均视为拒绝"@,
        exists|asked: Seq<char>|
            approval_text(calls) == #[trigger] (asked
                + "\n输入 y 允许执行；其它任意输入均视为拒绝"@) && approval_text(calls.push(call))
                == asked + "   • ["@ + call.name + "] "@ + call.arguments + "\n"@
                + "\n输入 y 允许执行；其它任意输入均视为拒绝"@,
        shown(EventView::ApprovalRequested { calls }) == Some("\n"@ + approval_text(calls)),
{
    let tail = "\n输入 y 允许执行；其它任意输入均视为拒绝"@;
    let asked = question_head() + call_lines(calls);
    assert(call_lines(Seq::empty()) =~= Seq::empty());
    assert(question_head() + Seq::<char>::empty() =~= question_head());
    assert(calls.push(call).drop_last() =~= calls);
    assert(approval_text(calls) == asked + tail);
    assert(approval_text(calls.push(call)) =~= asked + "   • ["@ + call.name + "] "@
        + call.arguments + "\n"@ + tail);
}

/// What the assistant says to the human is shown as it was said, to the last character.
pub proof fn law_the_assistant_is_quoted(message: MessageView)
    requires
        message.body.role == Role::Assistant,
        message.body.user_visible,
        message.body.error_kind is None,
        message.body.content.len() > 0,
    ensures
        shown(EventView::MessageAppended { message }) == Some(message.body.content),
{
}

/// What the human typed, the results of tools, what is hidden from the human and what is empty is
/// not shown.
pub proof fn law_the_rest_is_silent(message: MessageView)
    requires
        !message.body.user_visible || message.body.content.len() == 0 || (message.body.role
            != Role::Assistant && message.body.error_kind is None),
    ensures
        shown(EventView::MessageAppended { message }) is None,
{
}

/// Each cause of a fault has words of its own, with the detail between them whatever it is.
pub proof fn law_each_fault_has_its_words(detail: Seq<char>)
    ensures
        fault_text(ErrorKind::AuthOrQuota, detail)
            == "⚠️ 上游拒绝了本次请求（凭据无效或余额耗尽，本进程内重试无用）："@ + detail
            + "\n   修好凭据后 exit，再用 cargo run -- --continue 接着聊，历史不会丢。"@,
        fault_text(ErrorKind::RateLimited, detail) == "⚠️ 上游限流："@ + detail
            + "\n   稍等片刻再发一次即可，历史与用量都已保留。"@,
        fault_text(ErrorKind::ContextLengthExceeded, detail) == "⚠️ 上下文超出模型上限："@
            + detail
            + "\n   已尝试压缩历史自愈；若连续失败，请 exit 后 --continue，或换个上下文更大的模型。"@,
        fault_text(ErrorKind::Transport, detail) == "⚠️ 与上游的连接异常："@ + detail,
        fault_text(ErrorKind::Unknown, detail) == "⚠️ 上游调用失败（病因未识别）："@ + detail,
{
}

/// A fault that the human sees is shown by its cause and its whole detail, whoever put it on
/// record.
pub proof fn law_a_fault_is_worded_by_its_cause(message: MessageView, kind: ErrorKind)
    requires
        message.body.user_visible,
        message.body.error_kind == Some(kind),
        message.body.content.len() > 0,
    ensures
        shown(EventView::MessageAppended { message }) == Some(
            fault_text(kind, message.body.content),
        ),
        has_substring(fault_text(kind, message.body.content), message.body.content),
{
    let other = MessageView { id: message.id, body: error_body(kind, message.body.content) };
    law_faults_are_shown(other, kind, message.body.content);
}

/// A tool that starts is announced with its whole name and all of its arguments; its end, and what
/// only the engine is concerned with, is not.
pub proof fn law_tools_are_announced(
    tool: Seq<char>,
    call_id: Seq<char>,
    arguments: Seq<char>,
    output: Seq<char>,
    operation: Seq<char>,
)
    ensures
        shown(EventView::ToolStarted { tool, call_id, arguments }) == Some(
            "  ⚡ ["@ + tool + "] "@ + arguments,
        ),
        shown(EventView::ToolFinished { tool, call_id, output }) is None,
        shown(EventView::OperationApplied { operation }) is None,
        shown(EventView::RunStarted) is None,
        shown(EventView::RunFinished) is None,
{
}

/// A compaction is told with both counts, the one before in front of the one after.
pub proof fn law_both_counts_are_told(before: nat, after: nat)
    ensures
        shown(EventView::HistoryReplaced { before, after }) == Some(
            "\n〔历史已压缩：模型可见消息 "@ + decimal(before) + " 条 → "@ + decimal(after)
                + " 条〕\n"@,
        ),
{
}

} // verus!
