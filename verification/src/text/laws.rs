//! What the searches and cuts of text give, told by the texts alone.
use super::{
    decimal, find, is_white_space, lemma_find, lemma_find_is, occurs, occurs_at, replaced, trimmed,
    trimmed_end, trimmed_start,
};
use vstd::prelude::*;

verus! {

/// A text that stands between two others occurs in them together.
pub proof fn law_a_part_occurs(a: Seq<char>, pattern: Seq<char>, b: Seq<char>)
    ensures
        occurs(a + pattern + b, pattern),
{
    let s = a + pattern + b;
    let n = a.len() as int;
    assert(s.subrange(n, n + pattern.len()) == pattern);
    assert(occurs_at(s, pattern, n));
}

/// What occurs in a text stands between the two others that are returned.
pub proof fn law_what_occurs_is_a_part(s: Seq<char>, pattern: Seq<char>) -> (parts: (
    Seq<char>,
    Seq<char>,
))
    requires
        occurs(s, pattern),
    ensures
        s == parts.0 + pattern + parts.1,
{
    let i = choose|i: int| #[trigger] occurs_at(s, pattern, i);
    let parts = (s.take(i), s.skip(i + pattern.len()));
    assert(s == parts.0 + s.subrange(i, i + pattern.len()) + parts.1);
    parts
}

/// The index that is found is the least at which the pattern stands, and where none is found
/// it stands at none.
pub proof fn law_the_first_is_found(s: Seq<char>, pattern: Seq<char>)
    ensures
        match find(s, pattern) {
            Some(i) => {
                &&& 0 <= i
                &&& i + pattern.len() <= s.len()
                &&& s.subrange(i, i + pattern.len()) == pattern
                &&& forall|j: int|
                    0 <= j < i ==> #[trigger] s.subrange(j, j + pattern.len()) != pattern
            },
            None => forall|j: int|
                0 <= j && j + pattern.len() <= s.len() ==> #[trigger] s.subrange(
                    j,
                    j + pattern.len(),
                ) != pattern,
        },
{
    lemma_find(s, pattern);
    assert forall|j: int|
        0 <= j && j + pattern.len() <= s.len() && #[trigger] s.subrange(j, j + pattern.len())
            == pattern implies occurs_at(s, pattern, j) by {}
}

/// Where the pattern does not stand, nothing is replaced.
pub proof fn law_nothing_is_replaced(s: Seq<char>, pattern: Seq<char>, with: Seq<char>)
    requires
        forall|a: Seq<char>, b: Seq<char>| s != #[trigger] (a + pattern + b),
    ensures
        replaced(s, pattern, with) == s,
{
    lemma_find(s, pattern);
    if occurs(s, pattern) {
        let parts = law_what_occurs_is_a_part(s, pattern);
        assert(s == parts.0 + pattern + parts.1);
    }
}

/// The first occurrence is replaced, and then those in what follows it.
pub proof fn law_the_first_is_replaced(
    a: Seq<char>,
    pattern: Seq<char>,
    b: Seq<char>,
    with: Seq<char>,
)
    requires
        pattern.len() > 0,
        forall|x: Seq<char>, y: Seq<char>|
            a + pattern + b == #[trigger] (x + pattern + y) ==> a.len() <= x.len(),
    ensures
        replaced(a + pattern + b, pattern, with) == a + with + replaced(b, pattern, with),
{
    let s = a + pattern + b;
    let n = a.len() as int;
    assert(s.subrange(n, n + pattern.len()) == pattern);
    assert forall|j: int| 0 <= j < n implies !#[trigger] occurs_at(s, pattern, j) by {
        if occurs_at(s, pattern, j) {
            let x = s.take(j);
            let y = s.skip(j + pattern.len());
            assert(s == x + s.subrange(j, j + pattern.len()) + y);
            assert(s == x + pattern + y);
        }
    }
    lemma_find_is(s, pattern, n);
    assert(s.take(n) == a);
    assert(s.skip(n + pattern.len()) == b);
}

/// The white space, character by character.
pub proof fn law_white_space(c: char)
    ensures
        is_white_space(c) <==> c == '\t' || c == '\n' || c == '\u{b}' || c == '\u{c}' || c == '\r'
            || c == ' ' || c == '\u{85}' || c == '\u{a0}' || c == '\u{1680}' || c == '\u{2000}'
            || c == '\u{2001}' || c == '\u{2002}' || c == '\u{2003}' || c == '\u{2004}' || c
            == '\u{2005}' || c == '\u{2006}' || c == '\u{2007}' || c == '\u{2008}' || c
            == '\u{2009}' || c == '\u{200a}' || c == '\u{2028}' || c == '\u{2029}' || c
            == '\u{202f}' || c == '\u{205f}' || c == '\u{3000}',
{
}

/// Trimming takes white space from the two ends of a text, as much as there is, and nothing
/// else. What is returned is what it takes.
pub proof fn law_trimming_takes_the_ends(s: Seq<char>) -> (ends: (Seq<char>, Seq<char>))
    ensures
        s == ends.0 + trimmed(s) + ends.1,
        forall|i: int| 0 <= i < ends.0.len() ==> is_white_space(#[trigger] ends.0[i]),
        forall|i: int| 0 <= i < ends.1.len() ==> is_white_space(#[trigger] ends.1[i]),
        trimmed(s).len() > 0 ==> !is_white_space(trimmed(s)[0]) && !is_white_space(
            trimmed(s).last(),
        ),
{
    let a = lemma_trimmed_start(s);
    let b = lemma_trimmed_end(trimmed_start(s));
    assert(s == a + (trimmed(s) + b));
    assert(a + (trimmed(s) + b) == a + trimmed(s) + b);
    if trimmed(s).len() > 0 {
        assert(trimmed_start(s)[0] == trimmed(s)[0]);
    }
    (a, b)
}

proof fn lemma_trimmed_start(s: Seq<char>) -> (a: Seq<char>)
    ensures
        s == a + trimmed_start(s),
        forall|i: int| 0 <= i < a.len() ==> is_white_space(#[trigger] a[i]),
        trimmed_start(s).len() > 0 ==> !is_white_space(trimmed_start(s)[0]),
    decreases s.len(),
{
    if s.len() > 0 && is_white_space(s[0]) {
        let rest = lemma_trimmed_start(s.skip(1));
        let a = seq![s[0]] + rest;
        assert(s == seq![s[0]] + s.skip(1));
        assert(s == a + trimmed_start(s));
        assert forall|i: int| 0 <= i < a.len() implies is_white_space(#[trigger] a[i]) by {
            if i > 0 {
                assert(a[i] == rest[i - 1]);
            }
        }
        a
    } else {
        assert(s == Seq::<char>::empty() + s);
        Seq::empty()
    }
}

proof fn lemma_trimmed_end(s: Seq<char>) -> (b: Seq<char>)
    ensures
        s == trimmed_end(s) + b,
        forall|i: int| 0 <= i < b.len() ==> is_white_space(#[trigger] b[i]),
        trimmed_end(s).len() > 0 ==> !is_white_space(trimmed_end(s).last()),
    decreases s.len(),
{
    if s.len() > 0 && is_white_space(s.last()) {
        let rest = lemma_trimmed_end(s.drop_last());
        let b = rest.push(s.last());
        assert(s == s.drop_last().push(s.last()));
        assert(s == trimmed_end(s) + b);
        b
    } else {
        assert(s == s + Seq::<char>::empty());
        Seq::empty()
    }
}

/// The number that digits stand for.
pub open spec fn value_of(digits: Seq<char>) -> int
    decreases digits.len(),
{
    if digits.len() == 0 {
        0
    } else {
        10 * value_of(digits.drop_last()) + (digits.last() as int - '0' as int)
    }
}

/// A number in decimal is digits that stand for it, without a zero before the others.
pub proof fn law_decimal_stands_for_its_number(n: nat)
    ensures
        value_of(decimal(n)) == n,
        decimal(n).len() > 0,
        forall|i: int| 0 <= i < decimal(n).len() ==> '0' <= #[trigger] decimal(n)[i] <= '9',
        n > 0 ==> decimal(n)[0] != '0',
    decreases n,
{
    reveal_with_fuel(value_of, 2);
    if n < 10 {
        assert(decimal(n).drop_last() == Seq::<char>::empty());
    } else {
        law_decimal_stands_for_its_number(n / 10);
        assert(decimal(n).drop_last() == decimal(n / 10));
        assert(decimal(n)[0] == decimal(n / 10)[0]);
    }
}

} // verus!
