//! Searching from the end.

use vstd::prelude::*;

verus! {

/// The largest number from `lo` to `hi` of which `p` holds.
pub open spec fn last_in(lo: int, hi: int, p: spec_fn(int) -> bool) -> Option<int>
    decreases hi - lo + 1,
{
    if hi < lo {
        None
    } else if p(hi) {
        Some(hi)
    } else {
        last_in(lo, hi - 1, p)
    }
}

/// What the search finds is in range, fits, and nothing after it fits.
pub proof fn lemma_last_in(lo: int, hi: int, p: spec_fn(int) -> bool)
    ensures
        match last_in(lo, hi, p) {
            Some(i) => lo <= i <= hi && p(i) && forall|j: int| i < j <= hi ==> !#[trigger] p(j),
            None => forall|j: int| lo <= j <= hi ==> !#[trigger] p(j),
        },
    decreases hi - lo + 1,
{
    if lo <= hi && !p(hi) {
        lemma_last_in(lo, hi - 1, p);
    }
}

/// The search finds the same where nothing at the end fits.
pub proof fn lemma_search_shorter(lo: int, mid: int, hi: int, p: spec_fn(int) -> bool)
    requires
        mid <= hi,
        lo <= mid + 1,
        forall|i: int| mid < i <= hi ==> !#[trigger] p(i),
    ensures
        last_in(lo, hi, p) == last_in(lo, mid, p),
    decreases hi - mid,
{
    if mid < hi {
        assert(!p(hi));
        lemma_search_shorter(lo, mid, hi - 1, p);
    }
}

/// The search finds the same where two conditions agree.
pub proof fn lemma_same_search(
    lo: int,
    hi: int,
    p: spec_fn(int) -> bool,
    q: spec_fn(int) -> bool,
)
    requires
        forall|i: int| lo <= i <= hi ==> #[trigger] p(i) == q(i),
    ensures
        last_in(lo, hi, p) == last_in(lo, hi, q),
    decreases hi - lo + 1,
{
    if lo <= hi {
        assert(p(hi) == q(hi));
        lemma_same_search(lo, hi - 1, p, q);
    }
}

} // verus!
