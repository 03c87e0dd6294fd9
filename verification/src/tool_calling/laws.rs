//! What holds of the instruction block, of the candidates and of the calls as a whole.
use super::{
    arguments_of, block, block_body, brace_span, call_id, call_in, call_object, call_text,
    call_written, calls_among, candidate_texts, in_braces, is_renamed, is_spelling, lines,
    lines_in, unfenced, wrapped, BLOCK_HEAD, BLOCK_TAIL, CLOSE_TAG, FENCE, JSON_FENCE, OPEN_TAG,
};
use crate::json::{
    lemma_nested_within, parsed, printed, reads_as_object, reread_members, Json, MAX_NESTING,
};
use crate::openai_compat::CallText;
use crate::text::{
    decimal, find, is_white_space, lemma_decimal_distinct, lemma_find, lemma_find_is, lemma_rfind,
    lemma_rfind_is, occurs, occurs_at, replaced, trimmed, trimmed_end, trimmed_start,
};
use vstd::prelude::*;

verus! {

/// Whether a text is that of some object.
pub open spec fn is_object_text(text: Seq<char>) -> bool {
    exists|value: Json| value is Object && #[trigger] printed(value) == text
}

/// Every call names a declared tool, and its arguments are the text of an object.
pub proof fn law_calls_are_declared(found: Seq<Seq<char>>, declared: Seq<Seq<char>>, k: int)
    requires
        0 <= k < calls_among(found, declared).len(),
    ensures
        calls_among(found, declared)[k].call_type == "function"@,
        declared.contains(calls_among(found, declared)[k].name),
        is_object_text(calls_among(found, declared)[k].arguments),
    decreases found.len(),
{
    if k < calls_among(found.drop_last(), declared).len() {
        law_calls_are_declared(found.drop_last(), declared, k);
    }
}

/// Where no tool is declared, nothing is a call.
pub proof fn law_nothing_declared_gives_no_call(
    found: Seq<Seq<char>>,
    declared: Seq<Seq<char>>,
)
    requires
        declared.len() == 0,
    ensures
        calls_among(found, declared).len() == 0,
    decreases found.len(),
{
    if found.len() > 0 {
        law_nothing_declared_gives_no_call(found.drop_last(), declared);
    }
}

/// Every candidate that is a call is returned, under the identifier of its place.
pub proof fn law_every_call_is_returned(
    found: Seq<Seq<char>>,
    declared: Seq<Seq<char>>,
    i: int,
)
    requires
        0 <= i < found.len(),
        call_text(found[i], declared) is Some,
    ensures
        calls_among(found, declared).contains(
            CallText {
                id: call_id(i as nat),
                call_type: "function"@,
                name: call_text(found[i], declared).unwrap().0,
                arguments: call_text(found[i], declared).unwrap().1,
            },
        ),
    decreases found.len(),
{
    let calls = calls_among(found, declared);
    if i == found.len() - 1 {
        assert(calls.last().id == call_id(i as nat));
    } else {
        law_every_call_is_returned(found.drop_last(), declared, i);
        let earlier = calls_among(found.drop_last(), declared);
        let k = choose|k: int|
            0 <= k < earlier.len() && earlier[k] == CallText {
                id: call_id(i as nat),
                call_type: "function"@,
                name: call_text(found[i], declared).unwrap().0,
                arguments: call_text(found[i], declared).unwrap().1,
            };
        assert(calls[k] == earlier[k]);
    }
}

/// Every call has the identifier of the place of a candidate, and is the call of that
/// candidate.
pub proof fn law_every_call_has_a_candidate(
    found: Seq<Seq<char>>,
    declared: Seq<Seq<char>>,
    k: int,
) -> (i: int)
    requires
        0 <= k < calls_among(found, declared).len(),
    ensures
        k <= i < found.len(),
        calls_among(found, declared)[k].id == call_id(i as nat),
        call_text(found[i], declared) == Some(
            (calls_among(found, declared)[k].name, calls_among(found, declared)[k].arguments),
        ),
    decreases found.len(),
{
    let earlier = calls_among(found.drop_last(), declared);
    if k < earlier.len() {
        law_every_call_has_a_candidate(found.drop_last(), declared, k)
    } else {
        lemma_no_more_calls_than_candidates(found.drop_last(), declared);
        found.len() - 1
    }
}

proof fn lemma_no_more_calls_than_candidates(found: Seq<Seq<char>>, declared: Seq<Seq<char>>)
    ensures
        calls_among(found, declared).len() <= found.len(),
    decreases found.len(),
{
    if found.len() > 0 {
        lemma_no_more_calls_than_candidates(found.drop_last(), declared);
    }
}

/// No two calls of a reply have the same identifier.
pub proof fn law_ids_are_distinct(
    found: Seq<Seq<char>>,
    declared: Seq<Seq<char>>,
    j: int,
    k: int,
)
    requires
        0 <= j < k < calls_among(found, declared).len(),
    ensures
        calls_among(found, declared)[j].id != calls_among(found, declared)[k].id,
    decreases found.len(),
{
    let earlier = calls_among(found.drop_last(), declared);
    if k < earlier.len() {
        law_ids_are_distinct(found.drop_last(), declared, j, k);
    } else {
        let i = law_every_call_has_a_candidate(found.drop_last(), declared, j);
        let last = (found.len() - 1) as nat;
        if call_id(i as nat) == call_id(last) {
            assert(decimal(i as nat) == call_id(i as nat).skip("call_"@.len() as int));
            assert(decimal(last) == call_id(last).skip("call_"@.len() as int));
            lemma_decimal_distinct(i as nat, last);
        }
    }
}

// ---------------------------------------------------------------------------------------
// Candidates
// ---------------------------------------------------------------------------------------

/// A character of a text with replacements stood in the text or in the replacement.
pub(super) proof fn lemma_replaced_chars(s: Seq<char>, pattern: Seq<char>, with: Seq<char>, c: char)
    requires
        !s.contains(c),
        !with.contains(c),
    ensures
        !replaced(s, pattern, with).contains(c),
    decreases s.len(),
{
    lemma_find(s, pattern);
    match find(s, pattern) {
        Some(i) => {
            if 0 < pattern.len() {
                let rest = s.skip(i + pattern.len());
                assert forall|j: int| 0 <= j < rest.len() implies rest[j] != c by {
                    assert(rest[j] == s[i + pattern.len() + j]);
                }
                lemma_replaced_chars(rest, pattern, with, c);
                let whole = s.take(i) + with + replaced(rest, pattern, with);
                assert forall|j: int| 0 <= j < whole.len() implies whole[j] != c by {
                    if j < i {
                        assert(whole[j] == s[j]);
                    } else if j < i + with.len() {
                        assert(whole[j] == with[j - i]);
                    } else {
                        assert(whole[j] == replaced(rest, pattern, with)[j - i - with.len()]);
                    }
                }
            }
        },
        None => {},
    }
}

pub(super) proof fn lemma_unfenced_chars(output: Seq<char>, c: char)
    requires
        !output.contains(c),
        c != ' ',
    ensures
        !unfenced(output).contains(c),
{
    reveal_strlit(" ");
    lemma_replaced_chars(output, JSON_FENCE@, " "@, c);
    lemma_replaced_chars(replaced(output, JSON_FENCE@, " "@), FENCE@, " "@, c);
}

/// Ordinary prose, without a tag and without a pair of braces, holds no candidate and so no
/// call.
pub proof fn law_prose_holds_no_call(output: Seq<char>, declared: Seq<Seq<char>>)
    requires
        !occurs(output, OPEN_TAG@),
        !output.contains('{') || !output.contains('}'),
    ensures
        candidate_texts(output).len() == 0,
        calls_among(candidate_texts(output), declared).len() == 0,
{
    lemma_find(output, OPEN_TAG@);
    let cleaned = unfenced(output);
    if !output.contains('{') {
        lemma_unfenced_chars(output, '{');
        lemma_find(cleaned, "{"@);
        reveal_strlit("{");
        if occurs(cleaned, "{"@) {
            let i = choose|i: int| #[trigger] occurs_at(cleaned, "{"@, i);
            assert(cleaned.subrange(i, i + 1)[0] == "{"@[0]);
            assert(cleaned[i] == '{');
        }
    } else {
        lemma_unfenced_chars(output, '}');
        lemma_rfind(cleaned, '}');
    }
}

/// The tags as characters.
proof fn lemma_tags()
    ensures
        OPEN_TAG@ == seq!['<', 't', 'o', 'o', 'l', '_', 'c', 'a', 'l', 'l', '>'],
        CLOSE_TAG@ == seq!['<', '/', 't', 'o', 'o', 'l', '_', 'c', 'a', 'l', 'l', '>'],
{
    reveal_strlit("<tool_call>");
    reveal_strlit("</tool_call>");
}

/// A tag begins with `<` and holds no other.
spec fn is_tag(tag: Seq<char>) -> bool {
    &&& tag.len() > 0
    &&& tag[0] == '<'
    &&& forall|k: int| 0 < k < tag.len() ==> tag[k] != '<'
}

/// Where a tag follows a text that does not hold it, it is found behind the text.
proof fn lemma_find_tag(before: Seq<char>, tag: Seq<char>, behind: Seq<char>)
    requires
        is_tag(tag),
        !occurs(before, tag),
    ensures
        find(before + tag + behind, tag) == Some(before.len() as int),
{
    let s = before + tag + behind;
    let n = before.len() as int;
    assert(s.subrange(n, n + tag.len()) == tag);
    assert forall|j: int| 0 <= j < n implies !#[trigger] occurs_at(s, tag, j) by {
        if occurs_at(s, tag, j) {
            if j + tag.len() <= n {
                assert(before.subrange(j, j + tag.len()) == s.subrange(j, j + tag.len()));
                assert(occurs_at(before, tag, j));
            } else {
                assert(s.subrange(j, j + tag.len())[n - j] == s[n]);
                assert(s[n] == tag[0]);
            }
        }
    }
    lemma_find_is(s, tag, n);
}

/// A closing tag does not change the calls behind it.
proof fn lemma_wrapped_behind_close(behind: Seq<char>)
    ensures
        wrapped(CLOSE_TAG@ + behind) == wrapped(behind),
{
    lemma_tags();
    let s = CLOSE_TAG@ + behind;
    let n = CLOSE_TAG@.len() as int;
    assert forall|j: int| 0 <= j < n implies !#[trigger] occurs_at(s, OPEN_TAG@, j) by {
        if occurs_at(s, OPEN_TAG@, j) {
            assert(s.subrange(j, j + OPEN_TAG@.len())[0] == s[j]);
            assert(s.subrange(j, j + OPEN_TAG@.len())[1] == s[j + 1]);
            assert(s[j] == CLOSE_TAG@[j]);
            if j == 0 {
                assert(s[1] == CLOSE_TAG@[1]);
            }
        }
    }
    assert forall|j: int| 0 <= j implies #[trigger] occurs_at(behind, OPEN_TAG@, j) == occurs_at(
        s,
        OPEN_TAG@,
        n + j,
    ) by {
        if j + OPEN_TAG@.len() <= behind.len() {
            assert(behind.subrange(j, j + OPEN_TAG@.len()) == s.subrange(
                n + j,
                n + j + OPEN_TAG@.len(),
            ));
        }
    }
    lemma_find(behind, OPEN_TAG@);
    lemma_find(s, OPEN_TAG@);
    match find(behind, OPEN_TAG@) {
        Some(i) => {
            assert(occurs_at(s, OPEN_TAG@, n + i));
            assert forall|j: int| 0 <= j < n + i implies !#[trigger] occurs_at(
                s,
                OPEN_TAG@,
                j,
            ) by {
                if j >= n {
                    assert(!occurs_at(behind, OPEN_TAG@, j - n));
                }
            }
            lemma_find_is(s, OPEN_TAG@, n + i);
            assert(s.skip(n + i + OPEN_TAG@.len()) == behind.skip(i + OPEN_TAG@.len()));
        },
        None => {
            match find(s, OPEN_TAG@) {
                Some(i) => {
                    assert(occurs_at(behind, OPEN_TAG@, i - n));
                },
                None => {},
            }
        },
    }
}

/// A wrapped call is a candidate, before those of the text behind it and whatever text
/// without a tag stands before it.
pub proof fn law_wrapped_call_is_a_candidate(
    before: Seq<char>,
    body: Seq<char>,
    behind: Seq<char>,
)
    requires
        !occurs(before, OPEN_TAG@),
        !occurs(body, CLOSE_TAG@),
    ensures
        wrapped(before + OPEN_TAG@ + body + CLOSE_TAG@ + behind) == seq![trimmed(body)] + wrapped(
            behind,
        ),
        candidate_texts(before + OPEN_TAG@ + body + CLOSE_TAG@ + behind) == seq![trimmed(body)]
            + wrapped(behind),
{
    lemma_tags();
    let after = body + CLOSE_TAG@ + behind;
    let s = before + OPEN_TAG@ + body + CLOSE_TAG@ + behind;
    assert(s == before + OPEN_TAG@ + after);
    lemma_find_tag(before, OPEN_TAG@, after);
    assert(s.skip(before.len() as int + OPEN_TAG@.len()) == after);
    lemma_find_tag(body, CLOSE_TAG@, behind);
    assert(after.take(body.len() as int) == body);
    assert(after.skip(body.len() as int) == CLOSE_TAG@ + behind);
    lemma_wrapped_behind_close(behind);
}

/// A call that is opened and never closed is a candidate to the end of the output.
pub proof fn law_unclosed_call_is_a_candidate(before: Seq<char>, body: Seq<char>)
    requires
        !occurs(before, OPEN_TAG@),
        !occurs(body, CLOSE_TAG@),
    ensures
        candidate_texts(before + OPEN_TAG@ + body) == seq![trimmed(body)],
{
    lemma_tags();
    let s = before + OPEN_TAG@ + body;
    lemma_find_tag(before, OPEN_TAG@, body);
    assert(s.skip(before.len() as int + OPEN_TAG@.len()) == body);
    lemma_find(body, CLOSE_TAG@);
    assert(body.take(body.len() as int) == body);
    let none = body.skip(body.len() as int);
    lemma_find(none, OPEN_TAG@);
    assert(wrapped(none) == Seq::<Seq<char>>::empty());
    assert(wrapped(s) == seq![trimmed(body)]);
}

/// A reply of wrapped calls, each behind some text, with some text behind the last.
pub open spec fn reply(parts: Seq<(Seq<char>, Seq<char>)>, tail: Seq<char>) -> Seq<char>
    decreases parts.len(),
{
    if parts.len() == 0 {
        tail
    } else {
        parts[0].0 + OPEN_TAG@ + parts[0].1 + CLOSE_TAG@ + reply(parts.drop_first(), tail)
    }
}

/// Several wrapped calls in one reply are all candidates, in their order.
pub proof fn law_several_calls_are_all_candidates(
    parts: Seq<(Seq<char>, Seq<char>)>,
    tail: Seq<char>,
)
    requires
        forall|i: int|
            0 <= i < parts.len() ==> !occurs((#[trigger] parts[i]).0, OPEN_TAG@) && !occurs(
                parts[i].1,
                CLOSE_TAG@,
            ),
        !occurs(tail, OPEN_TAG@),
    ensures
        wrapped(reply(parts, tail)) == parts.map_values(
            |part: (Seq<char>, Seq<char>)| trimmed(part.1),
        ),
        parts.len() > 0 ==> candidate_texts(reply(parts, tail)) == parts.map_values(
            |part: (Seq<char>, Seq<char>)| trimmed(part.1),
        ),
    decreases parts.len(),
{
    let bodies = parts.map_values(|part: (Seq<char>, Seq<char>)| trimmed(part.1));
    if parts.len() == 0 {
        lemma_find(tail, OPEN_TAG@);
        assert(wrapped(tail) == bodies);
    } else {
        let rest = parts.drop_first();
        assert forall|i: int| 0 <= i < rest.len() implies !occurs(
            (#[trigger] rest[i]).0,
            OPEN_TAG@,
        ) && !occurs(rest[i].1, CLOSE_TAG@) by {
            assert(rest[i] == parts[i + 1]);
        }
        law_several_calls_are_all_candidates(rest, tail);
        law_wrapped_call_is_a_candidate(parts[0].0, parts[0].1, reply(rest, tail));
        assert(seq![trimmed(parts[0].1)] + rest.map_values(
            |part: (Seq<char>, Seq<char>)| trimmed(part.1),
        ) == bodies);
    }
}

// ---------------------------------------------------------------------------------------
// The forms in which models write a call
// ---------------------------------------------------------------------------------------

/// Whether a text is white space throughout.
pub open spec fn is_blank(s: Seq<char>) -> bool {
    forall|i: int| 0 <= i < s.len() ==> is_white_space(#[trigger] s[i])
}

/// Whether a text is what a model writes as the JSON object of a call: braces around something
/// without tags and fences.
pub open spec fn is_plain_object(object: Seq<char>) -> bool {
    &&& in_braces(object)
    &&& !occurs(object, OPEN_TAG@)
    &&& !occurs(object, CLOSE_TAG@)
    &&& !occurs(object, FENCE@)
}

/// A pattern whose ends stand in neither of the outer texts occurs only in the inner one.
proof fn lemma_occurs_inside(a: Seq<char>, x: Seq<char>, b: Seq<char>, pattern: Seq<char>)
    requires
        pattern.len() > 0,
        !a.contains(pattern[0]),
        !a.contains(pattern.last()),
        !b.contains(pattern[0]),
        !b.contains(pattern.last()),
        !occurs(x, pattern),
    ensures
        !occurs(a + x + b, pattern),
{
    let s = a + x + b;
    if occurs(s, pattern) {
        let j = choose|j: int| #[trigger] occurs_at(s, pattern, j);
        let n = pattern.len() as int;
        let here = s.subrange(j, j + n);
        assert(here[0] == s[j]);
        assert(here[n - 1] == s[j + n - 1]);
        if j < a.len() {
            assert(a[j] == pattern[0]);
        }
        if j + n > a.len() + x.len() {
            assert(b[j + n - 1 - a.len() - x.len()] == pattern.last());
        }
        assert(x.subrange(j - a.len(), j - a.len() + n) == here);
        assert(occurs_at(x, pattern, j - a.len()));
    }
}

proof fn lemma_blank_lacks(blank: Seq<char>, c: char)
    requires
        is_blank(blank),
        !is_white_space(c),
    ensures
        !blank.contains(c),
{
}

proof fn lemma_trimmed(a: Seq<char>, x: Seq<char>, b: Seq<char>)
    requires
        is_blank(a),
        is_blank(b),
        x.len() > 0,
        !is_white_space(x[0]),
        !is_white_space(x.last()),
    ensures
        trimmed(a + x + b) == x,
{
    lemma_trimmed_start(a, x + b);
    assert(a + x + b == a + (x + b));
    lemma_trimmed_end(x, b);
}

proof fn lemma_trimmed_start(a: Seq<char>, x: Seq<char>)
    requires
        is_blank(a),
        x.len() > 0,
        !is_white_space(x[0]),
    ensures
        trimmed_start(a + x) == x,
    decreases a.len(),
{
    if a.len() == 0 {
        assert(a + x == x);
    } else {
        assert((a + x)[0] == a[0]);
        assert((a + x).skip(1) == a.skip(1) + x);
        lemma_trimmed_start(a.skip(1), x);
    }
}

proof fn lemma_trimmed_end(x: Seq<char>, b: Seq<char>)
    requires
        is_blank(b),
        x.len() > 0,
        !is_white_space(x.last()),
    ensures
        trimmed_end(x + b) == x,
    decreases b.len(),
{
    if b.len() == 0 {
        assert(x + b == x);
    } else {
        assert((x + b).last() == b.last());
        assert((x + b).drop_last() == x + b.drop_last());
        lemma_trimmed_end(x, b.drop_last());
    }
}

/// The fences as characters.
pub(super) proof fn lemma_fences()
    ensures
        FENCE@ == seq!['`', '`', '`'],
        JSON_FENCE@ == seq!['`', '`', '`', 'j', 's', 'o', 'n'],
        " "@ == seq![' '],
        "{"@ == seq!['{'],
{
    reveal_strlit("```json");
    reveal_strlit("```");
    reveal_strlit(" ");
    reveal_strlit("{");
}

/// A text without a fence has no JSON fence.
pub(super) proof fn lemma_no_json_fence(s: Seq<char>)
    requires
        !occurs(s, FENCE@),
    ensures
        !occurs(s, JSON_FENCE@),
{
    lemma_fences();
    if occurs(s, JSON_FENCE@) {
        let j = choose|j: int| #[trigger] occurs_at(s, JSON_FENCE@, j);
        let here = s.subrange(j, j + JSON_FENCE@.len());
        assert(s.subrange(j, j + FENCE@.len()) == here.take(FENCE@.len() as int));
        assert(here.take(FENCE@.len() as int) == FENCE@);
        assert(occurs_at(s, FENCE@, j));
    }
}

pub(super) proof fn lemma_brace_span(before: Seq<char>, object: Seq<char>, behind: Seq<char>)
    requires
        in_braces(object),
        !before.contains('{'),
        !behind.contains('}'),
    ensures
        brace_span(before + object + behind) == seq![object],
{
    lemma_fences();
    let s = before + object + behind;
    let a = before.len() as int;
    let b = a + object.len() - 1;
    assert(s.subrange(a, a + 1) == "{"@);
    assert forall|j: int| 0 <= j < a implies !#[trigger] occurs_at(s, "{"@, j) by {
        if occurs_at(s, "{"@, j) {
            assert(s.subrange(j, j + 1)[0] == s[j]);
            assert(before[j] == '{');
        }
    }
    lemma_find_is(s, "{"@, a);
    assert forall|j: int| b < j < s.len() implies s[j] != '}' by {
        assert(s[j] == behind[j - b - 1]);
    }
    lemma_rfind_is(s, '}', b);
    assert(s.subrange(a, b + 1) == object);
}

/// A call without its wrapper is a candidate, among any text without tags and fences that has
/// no opening brace before it and no closing one behind it.
pub proof fn law_bare_call_is_a_candidate(
    before: Seq<char>,
    object: Seq<char>,
    behind: Seq<char>,
)
    requires
        in_braces(object),
        !before.contains('{'),
        !behind.contains('}'),
        !occurs(before + object + behind, OPEN_TAG@),
        !occurs(before + object + behind, FENCE@),
    ensures
        candidate_texts(before + object + behind) == seq![object],
{
    let s = before + object + behind;
    lemma_find(s, OPEN_TAG@);
    lemma_no_json_fence(s);
    lemma_find(s, JSON_FENCE@);
    lemma_find(s, FENCE@);
    lemma_brace_span(before, object, behind);
}

/// A text that holds no fence, closed by one, holds that one alone.
proof fn lemma_closing_fence(inner: Seq<char>, j: int)
    requires
        !occurs(inner, FENCE@),
        inner.len() > 0,
        inner.last() != '`',
        occurs_at(inner + FENCE@, FENCE@, j),
    ensures
        j == inner.len(),
{
    lemma_fences();
    let n = inner.len() as int;
    let here = (inner + FENCE@).subrange(j, j + 3);
    if j + 3 <= n {
        assert(inner.subrange(j, j + 3) == here);
        assert(occurs_at(inner, FENCE@, j));
    } else if j < n {
        assert(here[n - 1 - j] == inner[n - 1]);
    }
}

proof fn lemma_closing_fence_is_plain(inner: Seq<char>)
    requires
        !occurs(inner, FENCE@),
        inner.len() > 0,
        inner.last() != '`',
    ensures
        !occurs(inner + FENCE@, JSON_FENCE@),
{
    lemma_fences();
    let s = inner + FENCE@;
    if occurs(s, JSON_FENCE@) {
        let j = choose|j: int| #[trigger] occurs_at(s, JSON_FENCE@, j);
        let here = s.subrange(j, j + JSON_FENCE@.len());
        assert(s.subrange(j, j + FENCE@.len()) == here.take(FENCE@.len() as int));
        assert(here.take(FENCE@.len() as int) == FENCE@);
        lemma_closing_fence(inner, j);
    }
}

proof fn lemma_replace_opening(rest: Seq<char>)
    requires
        !occurs(rest, JSON_FENCE@),
    ensures
        replaced(JSON_FENCE@ + rest, JSON_FENCE@, " "@) == " "@ + rest,
{
    lemma_fences();
    let s = JSON_FENCE@ + rest;
    assert(s.subrange(0, JSON_FENCE@.len() as int) == JSON_FENCE@);
    assert(occurs_at(s, JSON_FENCE@, 0));
    let at: int = 0;
    lemma_find_is(s, JSON_FENCE@, at);
    assert(s.skip(at + JSON_FENCE@.len()) == rest);
    lemma_find(rest, JSON_FENCE@);
    assert(replaced(rest, JSON_FENCE@, " "@) == rest);
    assert(s.take(at) + " "@ + rest == " "@ + rest);
}

proof fn lemma_replace_closing(inner: Seq<char>)
    requires
        !occurs(inner, FENCE@),
        inner.len() > 0,
        inner.last() != '`',
    ensures
        replaced(inner + FENCE@, FENCE@, " "@) == inner + " "@,
{
    lemma_fences();
    let s = inner + FENCE@;
    let n = inner.len() as int;
    assert(s.subrange(n, n + FENCE@.len()) == FENCE@);
    assert forall|j: int| 0 <= j < n implies !#[trigger] occurs_at(s, FENCE@, j) by {
        if occurs_at(s, FENCE@, j) {
            lemma_closing_fence(inner, j);
        }
    }
    lemma_find_is(s, FENCE@, n);
    let none = s.skip(n + FENCE@.len());
    assert(none.len() == 0);
    lemma_find(none, FENCE@);
    assert(replaced(none, FENCE@, " "@) == none);
    assert(s.take(n) + " "@ + none == inner + " "@);
}

/// A fenced call without its fences.
proof fn lemma_unfenced(a: Seq<char>, object: Seq<char>, b: Seq<char>)
    requires
        is_blank(a),
        is_blank(b),
        is_plain_object(object),
    ensures
        unfenced(JSON_FENCE@ + a + object + b + FENCE@) == (" "@ + a) + object + (b + " "@),
{
    lemma_fences();
    let inner = a + object + b;
    let spaced = (" "@ + a) + object + b;
    lemma_blank_lacks(a, '`');
    lemma_blank_lacks(b, '`');
    lemma_occurs_inside(a, object, b, FENCE@);
    lemma_occurs_inside(" "@ + a, object, b, FENCE@);
    assert(inner.last() != '`' && spaced.last() == inner.last()) by {
        if b.len() > 0 {
            assert(inner.last() == b.last());
        } else {
            assert(inner.last() == object.last());
        }
    }
    lemma_closing_fence_is_plain(inner);
    lemma_replace_opening(inner + FENCE@);
    assert(JSON_FENCE@ + a + object + b + FENCE@ == JSON_FENCE@ + (inner + FENCE@));
    assert(" "@ + (inner + FENCE@) == spaced + FENCE@);
    lemma_replace_closing(spaced);
    assert(spaced + " "@ == (" "@ + a) + object + (b + " "@));
}

/// The trained format, a missing wrapper and a fence as if for a human, with any white space
/// around the object: all three give the object as the one candidate, and so the same calls.
pub proof fn law_forms_of_a_call_agree(
    a: Seq<char>,
    object: Seq<char>,
    b: Seq<char>,
    declared: Seq<Seq<char>>,
)
    requires
        is_blank(a),
        is_blank(b),
        is_plain_object(object),
    ensures
        candidate_texts(OPEN_TAG@ + a + object + b + CLOSE_TAG@) == seq![object],
        candidate_texts(a + object + b) == seq![object],
        candidate_texts(JSON_FENCE@ + a + object + b + FENCE@) == seq![object],
        ({
            let calls = calls_among(seq![object], declared);
            &&& calls_among(
                candidate_texts(OPEN_TAG@ + a + object + b + CLOSE_TAG@),
                declared,
            ) == calls
            &&& calls_among(candidate_texts(a + object + b), declared) == calls
            &&& calls_among(
                candidate_texts(JSON_FENCE@ + a + object + b + FENCE@),
                declared,
            ) == calls
        }),
{
    lemma_tags();
    lemma_fences();
    let inner = a + object + b;
    let empty = Seq::<char>::empty();
    lemma_blank_lacks(a, '<');
    lemma_blank_lacks(a, '>');
    lemma_blank_lacks(a, '`');
    lemma_blank_lacks(a, '{');
    lemma_blank_lacks(b, '<');
    lemma_blank_lacks(b, '>');
    lemma_blank_lacks(b, '`');
    lemma_blank_lacks(b, '}');
    lemma_occurs_inside(a, object, b, OPEN_TAG@);
    lemma_occurs_inside(a, object, b, CLOSE_TAG@);
    lemma_occurs_inside(a, object, b, FENCE@);
    // Wrapped.
    assert(!occurs(empty, OPEN_TAG@));
    law_wrapped_call_is_a_candidate(empty, inner, empty);
    assert(empty + OPEN_TAG@ + inner + CLOSE_TAG@ + empty == OPEN_TAG@ + a + object + b
        + CLOSE_TAG@);
    lemma_trimmed(a, object, b);
    lemma_find(empty, OPEN_TAG@);
    assert(wrapped(empty) == Seq::<Seq<char>>::empty());
    assert(seq![object] + Seq::<Seq<char>>::empty() == seq![object]);
    // Bare.
    law_bare_call_is_a_candidate(a, object, b);
    // Fenced.
    let fenced = JSON_FENCE@ + a + object + b + FENCE@;
    lemma_occurs_inside(JSON_FENCE@ + a, object, b + FENCE@, OPEN_TAG@);
    assert((JSON_FENCE@ + a) + object + (b + FENCE@) == fenced);
    lemma_find(fenced, OPEN_TAG@);
    lemma_unfenced(a, object, b);
    lemma_brace_span(" "@ + a, object, b + " "@);
}

// ---------------------------------------------------------------------------------------
// Arguments
// ---------------------------------------------------------------------------------------

/// The wrong key in place of `arguments` changes nothing, whatever other members there are.
pub proof fn law_parameters_serve_as_arguments(
    members: Map<Seq<char>, Json>,
    arguments: Json,
    declared: Seq<Seq<char>>,
)
    requires
        !members.dom().contains("arguments"@),
    ensures
        call_in(Json::Object(members.insert("parameters"@, arguments)), declared) == call_in(
            Json::Object(members.insert("arguments"@, arguments)),
            declared,
        ),
{
    lemma_keys();
}

/// Arguments that are the text of an object count as that object, under either key and
/// whatever other members there are.
pub proof fn law_stringified_arguments_are_read(
    members: Map<Seq<char>, Json>,
    inner: Seq<char>,
    declared: Seq<Seq<char>>,
)
    requires
        reads_as_object(inner),
    ensures
        call_in(Json::Object(members.insert("arguments"@, Json::String(inner))), declared)
            == call_in(
            Json::Object(members.insert("arguments"@, parsed(inner).unwrap())),
            declared,
        ),
        call_in(Json::Object(members.insert("parameters"@, Json::String(inner))), declared)
            == call_in(
            Json::Object(members.insert("parameters"@, parsed(inner).unwrap())),
            declared,
        ),
{
    lemma_keys();
}

/// The members of a signature have different names.
pub(super) proof fn lemma_signature_keys()
    ensures
        "name"@ != "description"@,
        "name"@ != "parameters"@,
        "description"@ != "parameters"@,
        "type"@ != "function"@,
{
    reveal_strlit("name");
    reveal_strlit("description");
    reveal_strlit("parameters");
    reveal_strlit("type");
    reveal_strlit("function");
    assert("name"@.len() != "description"@.len());
    assert("name"@.len() != "parameters"@.len());
    assert("description"@.len() != "parameters"@.len());
    assert("type"@.len() != "function"@.len());
}

/// The members that a call is read by have different names.
pub(super) proof fn lemma_keys()
    ensures
        "name"@ != "arguments"@,
        "name"@ != "parameters"@,
        "arguments"@ != "parameters"@,
{
    reveal_strlit("name");
    reveal_strlit("arguments");
    reveal_strlit("parameters");
    assert("name"@.len() != "arguments"@.len());
    assert("name"@.len() != "parameters"@.len());
    assert("arguments"@[0] != "parameters"@[0]);
}

/// The members of a value are nested no deeper than the value.
pub(super) proof fn lemma_members_are_nested(value: Json, levels: nat)
    requires
        value.nested_within(levels),
    ensures
        forall|key: Seq<char>|
            (#[trigger] value.member(key)) matches Some(member) ==> member.nested_within(levels),
{
    assert forall|key: Seq<char>| (#[trigger] value.member(key)) is Some implies value.member(
        key,
    ).unwrap().nested_within(levels) by {
        let member = value.member(key).unwrap();
        assert(value->Object_0.dom().contains(key));
        lemma_nested_within(member, (levels - 1) as nat, levels);
    }
}

/// What a call holds under either key, and how deep it is nested.
pub(super) proof fn lemma_written_call(name: Seq<char>, arguments: Json)
    ensures
        ({
            let call = call_object(name, "arguments"@, arguments);
            &&& call.member("name"@) == Some(Json::String(name))
            &&& call.member("arguments"@) == Some(arguments)
            &&& arguments.whole_within((MAX_NESTING - 1) as nat) ==> call.whole_within(
                MAX_NESTING as nat,
            )
        }),
        ({
            let call = call_object(name, "parameters"@, arguments);
            &&& call.member("name"@) == Some(Json::String(name))
            &&& call.member("arguments"@) is None
            &&& call.member("parameters"@) == Some(arguments)
            &&& arguments.whole_within((MAX_NESTING - 1) as nat) ==> call.whole_within(
                MAX_NESTING as nat,
            )
        }),
{
    lemma_keys();
    if arguments.whole_within((MAX_NESTING - 1) as nat) {
        lemma_call_is_whole(name, "arguments"@, arguments);
        lemma_call_is_whole(name, "parameters"@, arguments);
    }
}

proof fn lemma_call_is_whole(name: Seq<char>, key: Seq<char>, arguments: Json)
    requires
        arguments.whole_within((MAX_NESTING - 1) as nat),
    ensures
        call_object(name, key, arguments).whole_within(MAX_NESTING as nat),
{
    let members = call_object(name, key, arguments)->Object_0;
    assert(members.dom() == set!["name"@, key]);
    assert forall|k: Seq<char>| #[trigger] members.dom().contains(k) implies
        members[k].whole_within((MAX_NESTING - 1) as nat) by {
        if k != key {
            assert(members[k] == Json::String(name));
        }
    }
}

/// An object and the same object with the wrong key, each read from its text, are the same
/// call.
pub(super) proof fn lemma_spellings_agree(written: Json, call: Json, declared: Seq<Seq<char>>)
    requires
        is_spelling(written, call),
    ensures
        call_written(reread_members(written), declared) == call_written(
            reread_members(call),
            declared,
        ),
{
    if is_renamed(written, call) {
        lemma_keys();
        let members = reread_members(call)->Object_0;
        let others = members.remove("arguments"@);
        let arguments = members["arguments"@];
        assert(others.insert("arguments"@, arguments) == members);
        assert(reread_members(written)->Object_0 == others.insert("parameters"@, arguments));
        law_parameters_serve_as_arguments(others, arguments, declared);
    }
}

/// Where `arguments` is there, `parameters` is not looked at.
pub proof fn law_arguments_come_first(call: Json, other: Json)
    requires
        call.member("arguments"@) is Some,
        call.member("arguments"@) == other.member("arguments"@),
    ensures
        arguments_of(call) == arguments_of(other),
{
}

/// What is neither an object nor the text of one is no arguments.
pub proof fn law_arguments_are_an_object(call: Json, declared: Seq<Seq<char>>)
    ensures
        call_in(call, declared) matches Some((name, arguments)) ==> arguments is Object
            && declared.contains(name) && call.member("name"@) == Some(Json::String(name)),
{
}

// ---------------------------------------------------------------------------------------
// The instruction block
// ---------------------------------------------------------------------------------------

proof fn lemma_lines_hold(texts: Seq<Seq<char>>, i: int) -> (at: int)
    requires
        0 <= i < texts.len(),
    ensures
        occurs_at(lines(texts), texts[i], at),
    decreases texts.len(),
{
    let earlier = lines(texts.drop_last());
    if i == texts.len() - 1 {
        let at = earlier.len() as int;
        assert(lines(texts).subrange(at, at + texts[i].len()) == texts[i]);
        at
    } else {
        let at = lemma_lines_hold(texts.drop_last(), i);
        assert(lines(texts).subrange(at, at + texts[i].len()) == earlier.subrange(
            at,
            at + texts[i].len(),
        ));
        at
    }
}

/// The block carries every signature intact, between its two fixed parts.
pub proof fn law_block_carries_every_signature(signatures: Seq<Seq<char>>)
    ensures
        BLOCK_HEAD@.is_prefix_of(block(signatures)),
        BLOCK_TAIL@.is_suffix_of(block(signatures)),
        forall|i: int|
            0 <= i < signatures.len() ==> occurs(block(signatures), #[trigger] signatures[i]),
{
    let whole = block(signatures);
    assert(whole.take(BLOCK_HEAD@.len() as int) == BLOCK_HEAD@);
    assert(whole.skip(whole.len() - BLOCK_TAIL@.len()) == BLOCK_TAIL@);
    assert forall|i: int| 0 <= i < signatures.len() implies occurs(
        whole,
        #[trigger] signatures[i],
    ) by {
        let at = lemma_lines_hold(signatures, i);
        let n = BLOCK_HEAD@.len();
        let length = signatures[i].len();
        assert(whole.subrange(n + at, n + at + length) == lines(signatures).subrange(
            at,
            at + length,
        ));
        assert(occurs_at(whole, signatures[i], n + at));
    }
}

/// The break behind the last text is the last break of the lines.
proof fn lemma_last_line(texts: Seq<Seq<char>>)
    requires
        texts.len() > 0,
        !texts.last().contains('\n'),
    ensures
        lines_in(lines(texts)) == lines_in(lines(texts.drop_last())).push(texts.last()),
{
    reveal_strlit("\n");
    let earlier = lines(texts.drop_last());
    let whole = lines(texts);
    let body = earlier + texts.last();
    assert(whole.last() == '\n' && whole.drop_last() == body);
    assert forall|j: int| earlier.len() <= j < body.len() implies body[j] != '\n' by {
        assert(body[j] == texts.last()[j - earlier.len()]);
    }
    let end = earlier.len() as int;
    if texts.len() > 1 {
        assert(earlier.last() == '\n');
        lemma_rfind_is(body, '\n', end - 1);
        assert(body.take(end) == earlier && body.skip(end) == texts.last());
    } else {
        assert(earlier == Seq::<char>::empty());
        lemma_rfind(body, '\n');
        assert(body == texts.last());
        assert(lines_in(whole) == lines_in(earlier).push(texts.last()));
    }
}

proof fn lemma_lines_are_read_back(texts: Seq<Seq<char>>)
    requires
        forall|i: int| 0 <= i < texts.len() ==> !(#[trigger] texts[i]).contains('\n'),
    ensures
        lines_in(lines(texts)) == texts,
    decreases texts.len(),
{
    if texts.len() > 0 {
        let earlier = texts.drop_last();
        assert forall|i: int| 0 <= i < earlier.len() implies !(
        #[trigger] earlier[i]).contains('\n') by {
            assert(earlier[i] == texts[i]);
        }
        lemma_lines_are_read_back(earlier);
        lemma_last_line(texts);
    }
}

/// Each signature takes a line of the block, in their order, and no other line stands among
/// them.
pub proof fn law_block_has_a_line_for_each_signature(signatures: Seq<Seq<char>>)
    requires
        forall|i: int| 0 <= i < signatures.len() ==> !(#[trigger] signatures[i]).contains('\n'),
    ensures
        lines_in(block_body(block(signatures))) == signatures,
{
    assert(block_body(block(signatures)) == lines(signatures));
    lemma_lines_are_read_back(signatures);
}

} // verus!
