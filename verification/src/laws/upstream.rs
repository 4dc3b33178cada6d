//! How upstream faults are judged.

use crate::provider_error::{
    code_text, kind_of_fault, kind_of_parts, kind_of_status, says_context_too_long,
    says_quota_exhausted, words_of_fault, ErrorKind, FaultView,
};
use crate::text::{has_substring, lower, lower_char};
use vstd::prelude::*;

verus! {

/// What the upstream says counts before the status: with the same code and message no status
/// changes a cause that is told by them.
pub proof fn law_words_count_before_the_status(
    a: u16,
    b: u16,
    code: Seq<char>,
    message: Seq<char>,
)
    requires
        says_context_too_long(lower(code), lower(message)) || says_quota_exhausted(
            lower(code),
            lower(message),
        ),
    ensures
        kind_of_parts(a, code, message) == kind_of_parts(b, code, message),
        kind_of_parts(a, code, message) == ErrorKind::ContextLengthExceeded || kind_of_parts(
            a,
            code,
            message,
        ) == ErrorKind::AuthOrQuota,
{
}

/// An exhausted balance is never taken for rate limiting, even where the status says so: to try
/// again would be in vain.
pub proof fn law_an_exhausted_balance_is_not_retried(
    status: u16,
    code: Seq<char>,
    message: Seq<char>,
)
    requires
        says_quota_exhausted(lower(code), lower(message)),
        !says_context_too_long(lower(code), lower(message)),
    ensures
        kind_of_parts(status, code, message) == ErrorKind::AuthOrQuota,
        !kind_of_parts(status, code, message).retryable(),
{
}

/// Case does not matter in what the upstream says.
pub proof fn law_case_does_not_matter(status: u16, code: Seq<char>, message: Seq<char>)
    ensures
        kind_of_parts(status, lower(code), lower(message)) == kind_of_parts(status, code, message),
{
    lemma_lower_twice(code);
    lemma_lower_twice(message);
}

proof fn lemma_lower_twice(s: Seq<char>)
    ensures
        lower(lower(s)) == lower(s),
{
    assert forall|i: int| 0 <= i < s.len() implies lower_char(lower_char(#[trigger] s[i]))
        == lower_char(s[i]) by {
        lemma_lower_char(s[i]);
    }
    assert(lower(lower(s)) =~= lower(s));
}

proof fn lemma_lower_char(c: char)
    ensures
        lower_char(lower_char(c)) == lower_char(c),
{
    if 'A' <= c <= 'Z' {
        let n = c as u8;
        assert(65 <= n <= 90);
        assert(((n + 32) as u8) as char > 'Z');
    }
}

/// Network trouble may pass; an error object says nothing of the network.
pub proof fn law_network_trouble_is_transport(fault: FaultView)
    ensures
        kind_of_fault(fault) == ErrorKind::Transport <==> fault is Http || fault is Stream,
        kind_of_fault(fault) == ErrorKind::Transport ==> kind_of_fault(fault).retryable(),
{
}

/// An error of the server has no cause of its own.
pub proof fn law_server_errors_are_unknown(status: u16)
    requires
        status >= 500,
    ensures
        kind_of_status(status) == ErrorKind::Unknown,
{
}

/// Rate limiting is what status 429 says where neither the code nor the message speaks of the
/// context or of the balance, and nothing else: a message may speak of tokens as it likes.
pub proof fn law_rate_limits(status: u16, code: Seq<char>, message: Seq<char>)
    ensures
        kind_of_parts(status, code, message) == ErrorKind::RateLimited <==> {
            &&& status == 429
            &&& !has_substring(lower(code), "context_length_exceeded"@)
            &&& !has_substring(lower(code), "insufficient_quota"@)
            &&& !has_substring(lower(message), "context length"@)
            &&& !has_substring(lower(message), "maximum context"@)
            &&& !has_substring(lower(message), "too many tokens"@)
            &&& !has_substring(lower(message), "reduce the length"@)
            &&& !has_substring(lower(message), "quota"@)
            &&& !has_substring(lower(message), "insufficient balance"@)
        },
{
    lemma_quota_in_full(lower(message));
}

/// What exceeds the context is told by the code or the message alone, in one of five phrases.
pub proof fn law_overflows(status: u16, code: Seq<char>, message: Seq<char>)
    ensures
        kind_of_parts(status, code, message) == ErrorKind::ContextLengthExceeded <==> {
            ||| has_substring(lower(code), "context_length_exceeded"@)
            ||| has_substring(lower(message), "context length"@)
            ||| has_substring(lower(message), "maximum context"@)
            ||| has_substring(lower(message), "too many tokens"@)
            ||| has_substring(lower(message), "reduce the length"@)
        },
{
}

/// A human has to act where the balance is said to be exhausted, or the status is 401, 402 or 403;
/// but not where the context was exceeded.
pub proof fn law_refusals(status: u16, code: Seq<char>, message: Seq<char>)
    ensures
        kind_of_parts(status, code, message) == ErrorKind::AuthOrQuota <==> {
            &&& !has_substring(lower(code), "context_length_exceeded"@)
            &&& !has_substring(lower(message), "context length"@)
            &&& !has_substring(lower(message), "maximum context"@)
            &&& !has_substring(lower(message), "too many tokens"@)
            &&& !has_substring(lower(message), "reduce the length"@)
            &&& {
                ||| has_substring(lower(code), "insufficient_quota"@)
                ||| has_substring(lower(message), "insufficient balance"@)
                ||| has_substring(lower(message), "quota"@)
                ||| status == 401
                ||| status == 402
                ||| status == 403
            }
        },
{
    lemma_quota_in_full(lower(message));
}

/// Every other error object has a cause that is not known: none is taken for network trouble.
pub proof fn law_the_rest_is_unknown(status: u16, code: Seq<char>, message: Seq<char>)
    ensures
        kind_of_parts(status, code, message) != ErrorKind::Transport,
        kind_of_parts(status, code, message) == ErrorKind::Unknown <==> {
            &&& status != 401 && status != 402 && status != 403 && status != 429
            &&& !has_substring(lower(code), "context_length_exceeded"@)
            &&& !has_substring(lower(code), "insufficient_quota"@)
            &&& !has_substring(lower(message), "context length"@)
            &&& !has_substring(lower(message), "maximum context"@)
            &&& !has_substring(lower(message), "too many tokens"@)
            &&& !has_substring(lower(message), "reduce the length"@)
            &&& !has_substring(lower(message), "quota"@)
            &&& !has_substring(lower(message), "insufficient balance"@)
        },
{
    lemma_quota_in_full(lower(message));
}

/// The longer phrase holds the shorter.
proof fn lemma_quota_in_full(s: Seq<char>)
    ensures
        has_substring(s, "insufficient quota"@) ==> has_substring(s, "quota"@),
{
    if has_substring(s, "insufficient quota"@) {
        let at = choose|at: int| crate::text::occurs_at(s, "insufficient quota"@, at);
        reveal_strlit("insufficient quota");
        reveal_strlit("quota");
        let whole = s.subrange(at, at + 18);
        assert forall|i: int| 0 <= i < 5 implies s.subrange(at + 13, at + 18)[i] == "quota"@[i] by {
            assert(whole[13 + i] == "insufficient quota"@[13 + i]);
        }
        assert(s.subrange(at + 13, at + 18) =~= "quota"@);
        assert(crate::text::occurs_at(s, "quota"@, at + 13));
    }
}

/// An error object is judged by its code, and by its type only where it has no code; without
/// either nothing stands for them. Its words and the rest of it do not matter.
pub proof fn law_the_code_counts_before_the_type(
    status: u16,
    code: Option<Seq<char>>,
    error_type: Option<Seq<char>>,
    message: Seq<char>,
    text: Seq<char>,
)
    ensures
        ({
            let kind = kind_of_fault(
                FaultView::Api { status, code, error_type, message, text },
            );
            &&& code is Some ==> kind == kind_of_parts(status, code->0, message)
            &&& code is None && error_type is Some ==> kind == kind_of_parts(
                status,
                error_type->0,
                message,
            )
            &&& code is None && error_type is None ==> kind == kind_of_parts(
                status,
                Seq::empty(),
                message,
            )
        }),
        kind_of_fault(FaultView::Other(text)) == ErrorKind::Unknown,
        kind_of_fault(FaultView::Http(text)) == ErrorKind::Transport,
        kind_of_fault(FaultView::Stream(text)) == ErrorKind::Transport,
        code_text(None) == Seq::<char>::empty(),
        forall|given: &str| code_text(Some(given)) == given@,
{
}

/// A fault is told in the words of the upstream, unchanged, whatever its cause.
pub proof fn law_the_upstream_is_quoted(
    status: u16,
    code: Option<Seq<char>>,
    error_type: Option<Seq<char>>,
    message: Seq<char>,
    text: Seq<char>,
)
    ensures
        words_of_fault(FaultView::Api { status, code, error_type, message, text }) == text,
        words_of_fault(FaultView::Http(text)) == text,
        words_of_fault(FaultView::Stream(text)) == text,
        words_of_fault(FaultView::Other(text)) == text,
{
}

/// Another try is worth it for three causes; for the other two it is in vain.
pub proof fn law_what_another_try_may_mend(kind: ErrorKind)
    ensures
        kind.retryable() <==> kind != ErrorKind::AuthOrQuota && kind != ErrorKind::Unknown,
{
}

} // verus!
