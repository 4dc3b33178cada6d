//! What filters leave of a row.

use vstd::prelude::*;

verus! {

/// What a filter leaves stood in the row before.
pub proof fn lemma_filter_source<A>(s: Seq<A>, p: spec_fn(A) -> bool, i: int)
    requires
        0 <= i < s.filter(p).len(),
    ensures
        exists|k: int| 0 <= k < s.len() && #[trigger] s[k] == s.filter(p)[i],
    decreases s.len(),
{
    reveal(Seq::filter);
    if s.len() > 0 {
        let rest = s.drop_last();
        if i < rest.filter(p).len() {
            lemma_filter_source(rest, p, i);
            let k = choose|k: int| 0 <= k < rest.len() && #[trigger] rest[k] == rest.filter(p)[i];
            assert(s[k] == s.filter(p)[i]);
        } else {
            assert(s[s.len() - 1] == s.filter(p)[i]);
        }
    }
}

/// What passes a filter is still there behind it.
pub proof fn lemma_filter_keeps<A>(s: Seq<A>, p: spec_fn(A) -> bool, k: int)
    requires
        0 <= k < s.len(),
        p(s[k]),
    ensures
        s.filter(p).contains(s[k]),
    decreases s.len(),
{
    reveal(Seq::filter);
    let rest = s.drop_last();
    if k < rest.len() {
        lemma_filter_keeps(rest, p, k);
        let i = choose|i: int| 0 <= i < rest.filter(p).len() && rest.filter(p)[i] == rest[k];
        assert(s.filter(p)[i] == s[k]);
    } else {
        assert(s.filter(p)[s.filter(p).len() - 1] == s[k]);
    }
}

/// A filter that no item passes leaves nothing.
pub proof fn lemma_none_left<A>(rows: Seq<A>, p: spec_fn(A) -> bool)
    requires
        forall|i: int| 0 <= i < rows.len() ==> !p(#[trigger] rows[i]),
    ensures
        rows.filter(p) == Seq::<A>::empty(),
    decreases rows.len(),
{
    reveal(Seq::filter);
    if rows.len() > 0 {
        assert forall|i: int| 0 <= i < rows.drop_last().len() implies !p(
            #[trigger] rows.drop_last()[i],
        ) by {
            assert(rows.drop_last()[i] == rows[i]);
        }
        lemma_none_left(rows.drop_last(), p);
        assert(!p(rows[rows.len() - 1]));
    }
}

/// A filter that every item passes leaves everything.
pub proof fn lemma_all_stay<A>(s: Seq<A>, p: spec_fn(A) -> bool)
    requires
        forall|i: int| 0 <= i < s.len() ==> p(#[trigger] s[i]),
    ensures
        s.filter(p) == s,
    decreases s.len(),
{
    reveal(Seq::filter);
    if s.len() > 0 {
        let rest = s.drop_last();
        assert forall|i: int| 0 <= i < rest.len() implies p(#[trigger] rest[i]) by {
            assert(rest[i] == s[i]);
        }
        lemma_all_stay(rest, p);
        assert(p(s[s.len() - 1]));
        assert(s =~= rest.push(s.last()));
    }
}

/// Two conditions that agree on every item leave the same.
pub proof fn lemma_same_filter<A>(
    s: Seq<A>,
    p: spec_fn(A) -> bool,
    q: spec_fn(A) -> bool,
)
    requires
        forall|i: int| 0 <= i < s.len() ==> p(#[trigger] s[i]) == q(s[i]),
    ensures
        s.filter(p) == s.filter(q),
    decreases s.len(),
{
    reveal(Seq::filter);
    if s.len() > 0 {
        let rest = s.drop_last();
        assert forall|i: int| 0 <= i < rest.len() implies p(#[trigger] rest[i]) == q(rest[i]) by {
            assert(rest[i] == s[i]);
        }
        lemma_same_filter(rest, p, q);
        assert(p(s[s.len() - 1]) == q(s[s.len() - 1]));
    }
}

/// Two complementary filters leave everything between them.
pub proof fn lemma_parts<A>(
    s: Seq<A>,
    p: spec_fn(A) -> bool,
    q: spec_fn(A) -> bool,
)
    requires
        forall|m: A| #[trigger] p(m) == !q(m),
    ensures
        s.filter(p).len() + s.filter(q).len() == s.len(),
    decreases s.len(),
{
    reveal(Seq::filter);
    if s.len() > 0 {
        lemma_parts(s.drop_last(), p, q);
        assert(p(s.last()) == !q(s.last()));
    }
}

/// Two filters one after the other leave the same as two others, where the pairs of conditions
/// agree.
pub proof fn lemma_filters_meet<A>(
    s: Seq<A>,
    a: spec_fn(A) -> bool,
    b: spec_fn(A) -> bool,
    c: spec_fn(A) -> bool,
    d: spec_fn(A) -> bool,
)
    requires
        forall|m: A| (#[trigger] a(m) && b(m)) <==> (c(m) && d(m)),
    ensures
        s.filter(a).filter(b) == s.filter(c).filter(d),
    decreases s.len(),
{
    reveal(Seq::filter);
    if s.len() > 0 {
        let rest = s.drop_last();
        let last = s.last();
        lemma_filters_meet(rest, a, b, c, d);
        assert(s =~= rest.push(last));
        rest.lemma_filter_push(last, a);
        rest.lemma_filter_push(last, c);
        rest.filter(a).lemma_filter_push(last, b);
        rest.filter(c).lemma_filter_push(last, d);
        assert((a(last) && b(last)) <==> (c(last) && d(last)));
    }
}

} // verus!
