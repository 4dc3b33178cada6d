//! What the text primitives give, character by character.

use crate::text::{
    all_digits, begins_with, decimal, digits_value, ends_in, has_substring, is_space, lower,
    occurs_at, parsed_unsigned, signed_decimal, texts, trim_end, trim_start, trimmed,
};
use vstd::prelude::*;

verus! {

/// A text holds another where it is made of something, that text, and something.
pub proof fn law_substrings(hay: Seq<char>, needle: Seq<char>)
    ensures
        has_substring(hay, needle) <==> exists|a: Seq<char>, b: Seq<char>|
            hay == #[trigger] (a + needle + b),
{
    if has_substring(hay, needle) {
        let at = choose|at: int| occurs_at(hay, needle, at);
        let a = hay.take(at);
        let b = hay.skip(at + needle.len());
        assert(hay =~= a + needle + b);
    }
    if exists|a: Seq<char>, b: Seq<char>| hay == #[trigger] (a + needle + b) {
        let (a, b) = choose|a: Seq<char>, b: Seq<char>| hay == #[trigger] (a + needle + b);
        assert(hay.subrange(a.len() as int, (a.len() + needle.len()) as int) =~= needle);
        assert(occurs_at(hay, needle, a.len() as int));
    }
}

/// A text begins with another where that text and something make it.
pub proof fn law_beginnings(s: Seq<char>, head: Seq<char>)
    ensures
        begins_with(s, head) <==> exists|rest: Seq<char>| s == #[trigger] (head + rest),
{
    if begins_with(s, head) {
        assert(s =~= head + s.skip(head.len() as int));
    }
    if exists|rest: Seq<char>| s == #[trigger] (head + rest) {
        assert(s.take(head.len() as int) =~= head);
    }
}

/// A text ends in another where something and that text make it.
pub proof fn law_endings(s: Seq<char>, tail: Seq<char>)
    ensures
        ends_in(s, tail) <==> exists|rest: Seq<char>| s == #[trigger] (rest + tail),
{
    if ends_in(s, tail) {
        assert(s =~= s.take(s.len() - tail.len()) + tail);
    }
    if exists|rest: Seq<char>| s == #[trigger] (rest + tail) {
        assert(s.skip(s.len() - tail.len()) =~= tail);
    }
}

/// Lower case keeps the length, moves the letters from `A` to `Z` by 32, and touches nothing else.
pub proof fn law_lower_case(s: Seq<char>, i: int)
    requires
        0 <= i < s.len(),
    ensures
        lower(s).len() == s.len(),
        65 <= s[i] as u32 <= 90 ==> lower(s)[i] as u32 == s[i] as u32 + 32,
        !(65 <= s[i] as u32 <= 90) ==> lower(s)[i] == s[i],
{
}

/// White space is what Unicode calls so, by code point.
pub proof fn law_white_space(c: char)
    ensures
        is_space(c) <==> {
            let n = c as u32;
            ||| 9 <= n <= 13
            ||| n == 32
            ||| n == 133
            ||| n == 160
            ||| n == 5760
            ||| 8192 <= n <= 8202
            ||| n == 8232
            ||| n == 8233
            ||| n == 8239
            ||| n == 8287
            ||| n == 12288
        },
{
}

/// Every character is white space.
pub open spec fn all_space(s: Seq<char>) -> bool {
    forall|i: int| 0 <= i < s.len() ==> is_space(#[trigger] s[i])
}

proof fn lemma_trim_start(s: Seq<char>) -> (a: Seq<char>)
    ensures
        s == a + trim_start(s),
        all_space(a),
        trim_start(s).len() > 0 ==> !is_space(trim_start(s)[0]),
    decreases s.len(),
{
    if s.len() > 0 && is_space(s[0]) {
        let rest = lemma_trim_start(s.drop_first());
        let a = seq![s[0]] + rest;
        assert(s =~= seq![s[0]] + s.drop_first());
        assert(seq![s[0]] + (rest + trim_start(s)) =~= a + trim_start(s));
        a
    } else {
        assert(s =~= Seq::<char>::empty() + trim_start(s));
        Seq::empty()
    }
}

proof fn lemma_trim_end(s: Seq<char>) -> (b: Seq<char>)
    ensures
        s == trim_end(s) + b,
        all_space(b),
        trim_end(s).len() > 0 ==> !is_space(trim_end(s).last()),
    decreases s.len(),
{
    if s.len() > 0 && is_space(s.last()) {
        let rest = lemma_trim_end(s.drop_last());
        let b = rest.push(s.last());
        assert(s =~= s.drop_last().push(s.last()));
        assert((trim_end(s) + rest).push(s.last()) =~= trim_end(s) + b);
        b
    } else {
        assert(s =~= trim_end(s) + Seq::<char>::empty());
        Seq::empty()
    }
}

/// Trimming takes white space from both ends, all of it, and nothing else.
pub proof fn law_trimming(s: Seq<char>)
    ensures
        exists|a: Seq<char>, b: Seq<char>|
            s == #[trigger] (a + trimmed(s) + b) && all_space(a) && all_space(b),
        trimmed(s).len() > 0 ==> !is_space(trimmed(s)[0]) && !is_space(trimmed(s).last()),
{
    let a = lemma_trim_start(s);
    let b = lemma_trim_end(trim_start(s));
    assert(s =~= a + trimmed(s) + b);
    if trimmed(s).len() > 0 {
        assert(trimmed(s)[0] == trim_start(s)[0]);
    }
}

/// A number in decimal notation: digits alone, no zero in front, and one more digit for each power
/// of ten.
pub proof fn law_decimal_notation(n: nat)
    ensures
        n < 10 ==> decimal(n).len() == 1 && decimal(n)[0] as u32 == 48 + n,
        n >= 10 ==> decimal(n).drop_last() == decimal(n / 10) && decimal(n).last() as u32 == 48 + n
            % 10,
{
    assert(decimal(n).len() > 0);
    if n >= 10 {
        assert(decimal(n).drop_last() =~= decimal(n / 10));
    }
}

/// Different numbers are written differently.
pub proof fn law_decimal_is_unique(a: nat, b: nat)
    requires
        decimal(a) == decimal(b),
    ensures
        a == b,
{
    let most = a + b;
    crate::text::law_decimal_round_trip(a, most);
    crate::text::law_decimal_round_trip(b, most);
}

/// A negative number has a minus sign in front of the number without it.
pub proof fn law_signed_notation(n: nat)
    ensures
        signed_decimal(n as int) == decimal(n),
        n > 0 ==> signed_decimal(-n).len() == decimal(n).len() + 1 && signed_decimal(-n)[0] == '-'
            && signed_decimal(-n).skip(1) == decimal(n),
{
    if n > 0 {
        assert(signed_decimal(-n).skip(1) =~= decimal(n));
    }
}

/// What is read as a number: one digit or more, each worth ten times what follows it, with nothing
/// around them but one plus sign in front.
pub proof fn law_reading_numbers(s: Seq<char>, c: char, max: nat)
    ensures
        parsed_unsigned(Seq::empty(), max) is None,
        parsed_unsigned(seq!['+'], max) is None,
        !(48 <= c as u32 <= 57) && !(s.len() == 0 && c == '+') ==> parsed_unsigned(s.push(c), max)
            is None,
        48 <= c as u32 <= 57 ==> parsed_unsigned(seq![c], max) == if c as nat - 48 <= max {
            Some((c as nat - 48) as nat)
        } else {
            None
        },
        48 <= c as u32 <= 57 && s.len() > 0 && s != seq!['+'] ==> parsed_unsigned(s.push(c), max)
            == match parsed_unsigned(s, max) {
            Some(n) => if n * 10 + (c as nat - 48) <= max {
                Some((n * 10 + (c as nat - 48)) as nat)
            } else {
                None
            },
            None => None,
        },
        48 <= c as u32 <= 57 ==> parsed_unsigned(seq!['+', c], max) == parsed_unsigned(
            seq![c],
            max,
        ),
{
    let more = s.push(c);
    let plus = seq!['+', c];
    let one = seq![c];
    assert(seq!['+'].skip(1) =~= Seq::empty());
    assert(plus.skip(1) =~= one);
    assert(one.drop_last() =~= Seq::empty());
    assert(digits_value(one.drop_last()) == 0);
    assert(one.last() == c);
    if s.len() > 0 && s[0] == '+' {
        assert(more[0] == '+');
        assert(more.skip(1) =~= s.skip(1).push(c));
        lemma_more_digits(s.skip(1), c);
        if s.len() == 1 {
            assert(s =~= seq!['+']);
        }
    } else if s.len() > 0 {
        assert(more[0] == s[0]);
        lemma_more_digits(s, c);
    } else {
        assert(more =~= one);
        if !(48 <= c as u32 <= 57) && c != '+' {
            assert(!('0' <= one[0] <= '9'));
            assert(!all_digits(one));
        }
    }
    if 48 <= c as u32 <= 57 {
        assert(all_digits(one));
    }
}

proof fn lemma_more_digits(s: Seq<char>, c: char)
    ensures
        all_digits(s.push(c)) <==> all_digits(s) && '0' <= c <= '9',
        digits_value(s.push(c)) == (digits_value(s) * 10 + (c as nat - 48)) as nat,
{
    let more = s.push(c);
    assert(more.drop_last() =~= s);
    assert(more.last() == c);
    if all_digits(more) {
        assert forall|i: int| 0 <= i < s.len() implies '0' <= #[trigger] s[i] <= '9' by {
            assert(more[i] == s[i]);
        }
        assert('0' <= more[s.len() as int] <= '9');
    }
    if all_digits(s) && '0' <= c <= '9' {
        assert forall|i: int| 0 <= i < more.len() implies '0' <= #[trigger] more[i] <= '9' by {
            if i < s.len() {
                assert(more[i] == s[i]);
            }
        }
    }
}

/// The texts of a row of strings are those of each string, in order.
pub proof fn law_texts_of_strings(strings: Seq<String>, i: int)
    requires
        0 <= i < strings.len(),
    ensures
        texts(strings).len() == strings.len(),
        texts(strings)[i] == strings[i]@,
{
}

} // verus!
