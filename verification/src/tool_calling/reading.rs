//! What is read from a reply, told by the reply, by the JSON in it and by the declared names.
use super::laws::{
    law_unclosed_call_is_a_candidate, law_wrapped_call_is_a_candidate, lemma_brace_span,
    lemma_fences, lemma_no_json_fence, lemma_replaced_chars, lemma_unfenced_chars,
};
use super::{
    call_in, call_text, calls_among, candidate_texts, in_braces, is_sound_call, is_spelling,
    is_written_call, str_views, tool_names, unfenced, views, wrapped, FENCE, JSON_FENCE, OPEN_TAG,
};
use crate::json::{parsed, printed, Json};
use crate::openai_compat::{CallText, ToolCall, ToolSpec};
use crate::text::{
    decimal, find, lemma_find, lemma_find_is, lemma_rfind, occurs, occurs_at, replaced, rfind,
    trimmed,
};
use vstd::prelude::*;

verus! {

// ---------------------------------------------------------------------------------------
// Candidates without tags
// ---------------------------------------------------------------------------------------

/// Where no occurrence reaches over the border of two texts, each is replaced in by itself.
proof fn lemma_replaced_splits(
    u: Seq<char>,
    w: Seq<char>,
    pattern: Seq<char>,
    with: Seq<char>,
)
    requires
        pattern.len() > 0,
        forall|j: int|
            0 <= j < u.len() && u.len() < j + pattern.len() ==> !#[trigger] occurs_at(
                u + w,
                pattern,
                j,
            ),
    ensures
        replaced(u + w, pattern, with) == replaced(u, pattern, with) + replaced(w, pattern, with),
    decreases u.len(),
{
    let s = u + w;
    let n = pattern.len() as int;
    lemma_find(u, pattern);
    match find(u, pattern) {
        Some(i) => {
            assert(s.subrange(i, i + n) == u.subrange(i, i + n));
            assert forall|j: int| 0 <= j < i implies !#[trigger] occurs_at(s, pattern, j) by {
                if occurs_at(s, pattern, j) {
                    assert(u.subrange(j, j + n) == s.subrange(j, j + n));
                    assert(occurs_at(u, pattern, j));
                }
            }
            lemma_find_is(s, pattern, i);
            let rest = u.skip(i + n);
            assert(s.skip(i + n) == rest + w);
            assert forall|j: int|
                0 <= j < rest.len() && rest.len() < j + n implies !#[trigger] occurs_at(
                rest + w,
                pattern,
                j,
            ) by {
                if occurs_at(rest + w, pattern, j) {
                    assert((rest + w).subrange(j, j + n) == s.subrange(i + n + j, i + n + j + n));
                    assert(occurs_at(s, pattern, i + n + j));
                }
            }
            lemma_replaced_splits(rest, w, pattern, with);
            assert(s.take(i) == u.take(i));
            assert(replaced(s, pattern, with) == u.take(i) + with + (replaced(rest, pattern, with)
                + replaced(w, pattern, with)));
        },
        None => {
            let m = u.len() as int;
            assert forall|j: int| 0 <= j < m implies !#[trigger] occurs_at(s, pattern, j) by {
                if occurs_at(s, pattern, j) && j + n <= m {
                    assert(u.subrange(j, j + n) == s.subrange(j, j + n));
                    assert(occurs_at(u, pattern, j));
                }
            }
            lemma_find(w, pattern);
            lemma_find(s, pattern);
            match find(w, pattern) {
                Some(k) => {
                    assert(s.subrange(m + k, m + k + n) == w.subrange(k, k + n));
                    assert(occurs_at(s, pattern, m + k));
                    assert forall|j: int| 0 <= j < m + k implies !#[trigger] occurs_at(
                        s,
                        pattern,
                        j,
                    ) by {
                        if j >= m && occurs_at(s, pattern, j) {
                            assert(w.subrange(j - m, j - m + n) == s.subrange(j, j + n));
                            assert(occurs_at(w, pattern, j - m));
                        }
                    }
                    lemma_find_is(s, pattern, m + k);
                    assert(s.take(m + k) == u + w.take(k));
                    assert(s.skip(m + k + n) == w.skip(k + n));
                    assert(replaced(s, pattern, with) == u + (w.take(k) + with + replaced(
                        w.skip(k + n),
                        pattern,
                        with,
                    )));
                },
                None => {
                    match find(s, pattern) {
                        Some(j) => {
                            assert(occurs_at(s, pattern, j));
                            assert(w.subrange(j - m, j - m + n) == s.subrange(j, j + n));
                            assert(occurs_at(w, pattern, j - m));
                        },
                        None => {},
                    }
                },
            }
        },
    }
}

/// Where a character next to the border of two texts is not of the pattern, no occurrence
/// reaches over it.
proof fn lemma_replaced_at_border(
    u: Seq<char>,
    w: Seq<char>,
    pattern: Seq<char>,
    with: Seq<char>,
)
    requires
        pattern.len() > 0,
        (w.len() > 0 && !pattern.contains(w[0])) || (u.len() > 0 && !pattern.contains(u.last())),
    ensures
        replaced(u + w, pattern, with) == replaced(u, pattern, with) + replaced(w, pattern, with),
{
    let s = u + w;
    let m = u.len() as int;
    assert forall|j: int| 0 <= j < m && m < j + pattern.len() implies !#[trigger] occurs_at(
        s,
        pattern,
        j,
    ) by {
        if occurs_at(s, pattern, j) {
            let here = s.subrange(j, j + pattern.len());
            assert(here[m - j] == s[m]);
            assert(here[m - 1 - j] == s[m - 1]);
            assert(pattern.contains(pattern[m - j]));
            assert(pattern.contains(pattern[m - 1 - j]));
        }
    }
    lemma_replaced_splits(u, w, pattern, with);
}

/// Fences are replaced around an object that holds none.
proof fn lemma_unfenced_around(u: Seq<char>, object: Seq<char>, v: Seq<char>)
    requires
        in_braces(object),
        !occurs(object, FENCE@),
    ensures
        unfenced(u + object + v) == unfenced(u) + object + unfenced(v),
{
    lemma_fences();
    lemma_no_json_fence(object);
    lemma_find(object, FENCE@);
    lemma_find(object, JSON_FENCE@);
    lemma_replaced_between(u, object, v, JSON_FENCE@);
    lemma_replaced_between(
        replaced(u, JSON_FENCE@, " "@),
        object,
        replaced(v, JSON_FENCE@, " "@),
        FENCE@,
    );
}

proof fn lemma_replaced_between(
    u: Seq<char>,
    object: Seq<char>,
    v: Seq<char>,
    pattern: Seq<char>,
)
    requires
        in_braces(object),
        pattern.len() > 0,
        !pattern.contains('{'),
        !pattern.contains('}'),
        replaced(object, pattern, " "@) == object,
    ensures
        replaced(u + object + v, pattern, " "@) == replaced(u, pattern, " "@) + object + replaced(
            v,
            pattern,
            " "@,
        ),
{
    assert(u + object + v == u + (object + v));
    lemma_replaced_at_border(u, object + v, pattern, " "@);
    lemma_replaced_at_border(object, v, pattern, " "@);
    assert(replaced(u, pattern, " "@) + (object + replaced(v, pattern, " "@)) == replaced(
        u,
        pattern,
        " "@,
    ) + object + replaced(v, pattern, " "@));
}

/// Without a tag, a span of braces that holds no fence is the one candidate, among any text
/// with any fences that has no opening brace before it and no closing one behind it. So a
/// fenced call among prose gives what the bare call gives.
pub proof fn law_braces_among_any_text(u: Seq<char>, object: Seq<char>, v: Seq<char>)
    requires
        object.len() >= 2,
        object[0] == '{',
        object.last() == '}',
        !occurs(object, "```"@),
        !u.contains('{'),
        !v.contains('}'),
        !occurs(u + object + v, "<tool_call>"@),
    ensures
        candidate_texts(u + object + v) == seq![object],
{
    lemma_find(u + object + v, OPEN_TAG@);
    lemma_unfenced_around(u, object, v);
    lemma_unfenced_chars(u, '{');
    lemma_unfenced_chars(v, '}');
    lemma_brace_span(unfenced(u), object, unfenced(v));
}

/// Without a tag, the one candidate is the span from the first opening brace to the last
/// closing one in the reply with a blank in place of each fence.
pub proof fn law_candidate_is_the_outermost_span(
    output: Seq<char>,
    u: Seq<char>,
    object: Seq<char>,
    v: Seq<char>,
)
    requires
        !occurs(output, "<tool_call>"@),
        replaced(replaced(output, "```json"@, " "@), "```"@, " "@) == u + object + v,
        object.len() >= 2,
        object[0] == '{',
        object.last() == '}',
        !u.contains('{'),
        !v.contains('}'),
    ensures
        candidate_texts(output) == seq![object],
{
    lemma_find(output, OPEN_TAG@);
    lemma_brace_span(u, object, v);
}

/// What stands between a tag that opens and the next that closes is a candidate without the
/// white space around it, before those of what follows.
pub proof fn law_candidates_in_tags(before: Seq<char>, body: Seq<char>, behind: Seq<char>)
    requires
        !occurs(before, "<tool_call>"@),
        !occurs(body, "</tool_call>"@),
    ensures
        ({
            let output = before + "<tool_call>"@ + body + "</tool_call>"@ + behind;
            &&& occurs(behind, "<tool_call>"@) ==> candidate_texts(output) == seq![trimmed(body)]
                + candidate_texts(behind)
            &&& !occurs(behind, "<tool_call>"@) ==> candidate_texts(output) == seq![trimmed(body)]
        }),
        candidate_texts(before + "<tool_call>"@ + body) == seq![trimmed(body)],
{
    law_wrapped_call_is_a_candidate(before, body, behind);
    law_unclosed_call_is_a_candidate(before, body);
    lemma_find(behind, OPEN_TAG@);
    if !occurs(behind, "<tool_call>"@) {
        assert(wrapped(behind) == Seq::<Seq<char>>::empty());
        assert(seq![trimmed(body)] + wrapped(behind) == seq![trimmed(body)]);
    }
}

/// A pattern that stands in neither of two texts, and that lacks a character next to their
/// border, does not stand in them together.
proof fn lemma_no_occurrence_over_border(u: Seq<char>, w: Seq<char>, pattern: Seq<char>)
    requires
        pattern.len() > 0,
        (w.len() > 0 && !pattern.contains(w[0])) || (u.len() > 0 && !pattern.contains(u.last())),
        !occurs(u, pattern),
        !occurs(w, pattern),
    ensures
        !occurs(u + w, pattern),
{
    let s = u + w;
    let m = u.len() as int;
    let n = pattern.len() as int;
    if occurs(s, pattern) {
        let j = choose|j: int| #[trigger] occurs_at(s, pattern, j);
        let here = s.subrange(j, j + n);
        if j + n <= m {
            assert(u.subrange(j, j + n) == here);
            assert(occurs_at(u, pattern, j));
        } else if j >= m {
            assert(w.subrange(j - m, j - m + n) == here);
            assert(occurs_at(w, pattern, j - m));
        } else {
            assert(here[m - j] == s[m]);
            assert(here[m - 1 - j] == s[m - 1]);
            assert(pattern.contains(pattern[m - j]));
            assert(pattern.contains(pattern[m - 1 - j]));
        }
    }
}

/// A call in a fence, anywhere in a reply without a tag, is the one candidate.
pub proof fn law_fenced_call_among_prose(
    before: Seq<char>,
    a: Seq<char>,
    object: Seq<char>,
    b: Seq<char>,
    behind: Seq<char>,
)
    requires
        object.len() >= 2,
        object[0] == '{',
        object.last() == '}',
        !occurs(object, "```"@),
        !before.contains('{'),
        !a.contains('{'),
        !b.contains('}'),
        !behind.contains('}'),
        !occurs(before, "<tool_call>"@),
        !occurs(a, "<tool_call>"@),
        !occurs(object, "<tool_call>"@),
        !occurs(b, "<tool_call>"@),
        !occurs(behind, "<tool_call>"@),
    ensures
        candidate_texts(before + "```json"@ + a + object + b + "```"@ + behind) == seq![object],
        candidate_texts(before + "```"@ + a + object + b + "```"@ + behind) == seq![object],
{
    lemma_fences();
    reveal_strlit("<tool_call>");
    let tag = "<tool_call>"@;
    let v = b + "```"@ + behind;
    assert(!occurs("```"@, tag));
    assert(!occurs("```json"@, tag)) by {
        assert("```json"@.len() < tag.len());
    }
    lemma_no_occurrence_over_border(b, "```"@, tag);
    lemma_no_occurrence_over_border(b + "```"@, behind, tag);
    lemma_fenced_call(before, "```json"@, a, object, v);
    lemma_fenced_call(before, "```"@, a, object, v);
    assert(before + "```json"@ + a + object + v == before + "```json"@ + a + object + b + "```"@
        + behind);
    assert(before + "```"@ + a + object + v == before + "```"@ + a + object + b + "```"@ + behind);
}

proof fn lemma_fenced_call(
    before: Seq<char>,
    fence: Seq<char>,
    a: Seq<char>,
    object: Seq<char>,
    v: Seq<char>,
)
    requires
        fence == "```json"@ || fence == "```"@,
        object.len() >= 2,
        object[0] == '{',
        object.last() == '}',
        !occurs(object, "```"@),
        !before.contains('{'),
        !a.contains('{'),
        !v.contains('}'),
        !occurs(before, "<tool_call>"@),
        !occurs(fence, "<tool_call>"@),
        !occurs(a, "<tool_call>"@),
        !occurs(object, "<tool_call>"@),
        !occurs(v, "<tool_call>"@),
    ensures
        candidate_texts(before + fence + a + object + v) == seq![object],
{
    lemma_fences();
    reveal_strlit("<tool_call>");
    let tag = "<tool_call>"@;
    lemma_no_occurrence_over_border(before, fence, tag);
    lemma_no_occurrence_over_border(before + fence, a, tag);
    let u = before + fence + a;
    lemma_no_occurrence_over_border(u, object, tag);
    lemma_no_occurrence_over_border(u + object, v, tag);
    law_braces_among_any_text(u, object, v);
}

/// No opening brace stands before a closing one.
spec fn has_no_span(s: Seq<char>) -> bool {
    forall|i: int, j: int|
        0 <= i < j < s.len() ==> !(#[trigger] s[i] == '{' && #[trigger] s[j] == '}')
}

proof fn lemma_replaced_has_no_span(s: Seq<char>, pattern: Seq<char>)
    requires
        has_no_span(s),
    ensures
        has_no_span(replaced(s, pattern, " "@)),
    decreases s.len(),
{
    lemma_fences();
    lemma_find(s, pattern);
    match find(s, pattern) {
        Some(at) => {
            if 0 < pattern.len() {
                let rest = s.skip(at + pattern.len());
                assert forall|i: int, j: int| 0 <= i < j < rest.len() implies !(
                #[trigger] rest[i] == '{' && #[trigger] rest[j] == '}') by {
                    let skipped = at + pattern.len();
                    assert(rest[i] == s[skipped + i] && rest[j] == s[skipped + j]);
                }
                lemma_replaced_has_no_span(rest, pattern);
                let tail = replaced(rest, pattern, " "@);
                let whole = s.take(at) + " "@ + tail;
                if s.take(at).contains('{') {
                    let k = choose|k: int| 0 <= k < at && s.take(at)[k] == '{';
                    assert forall|j: int| 0 <= j < rest.len() implies rest[j] != '}' by {
                        assert(rest[j] == s[at + pattern.len() + j]);
                        assert(s[k] == '{');
                    }
                    lemma_replaced_chars(rest, pattern, " "@, '}');
                }
                assert forall|i: int, j: int| 0 <= i < j < whole.len() implies !(
                #[trigger] whole[i] == '{' && #[trigger] whole[j] == '}') by {
                    if whole[i] == '{' && whole[j] == '}' {
                        if j < at {
                            assert(s[i] == '{' && s[j] == '}');
                        } else {
                            assert(tail[j - at - 1] == '}');
                            if i < at {
                                assert(s.take(at)[i] == '{');
                            } else {
                                assert(tail[i - at - 1] == '{');
                            }
                        }
                    }
                }
            }
        },
        None => {},
    }
}

/// A reply without a tag, in which no opening brace stands before a closing one, has no
/// candidate.
pub proof fn law_no_span_no_candidate(output: Seq<char>)
    requires
        !occurs(output, "<tool_call>"@),
        forall|i: int, j: int|
            0 <= i < j < output.len() ==> !(#[trigger] output[i] == '{' && #[trigger] output[j]
                == '}'),
    ensures
        candidate_texts(output).len() == 0,
{
    lemma_fences();
    lemma_find(output, OPEN_TAG@);
    lemma_replaced_has_no_span(output, JSON_FENCE@);
    lemma_replaced_has_no_span(replaced(output, JSON_FENCE@, " "@), FENCE@);
    let s = unfenced(output);
    lemma_find(s, "{"@);
    lemma_rfind(s, '}');
    match (find(s, "{"@), rfind(s, '}')) {
        (Some(a), Some(b)) => {
            if b > a {
                assert(s.subrange(a, a + 1)[0] == s[a]);
                assert(s[a] == '{' && s[b] == '}');
            }
        },
        _ => {},
    }
}

/// What a pattern without the characters between two texts occurs in is one of the two.
proof fn lemma_occurs_on_a_side(u: Seq<char>, m: Seq<char>, v: Seq<char>, pattern: Seq<char>)
    requires
        m.len() > 0,
        pattern.len() > 0,
        !pattern.contains(m[0]),
        !pattern.contains(m.last()),
        forall|i: int| 0 <= i < m.len() ==> !pattern.contains(#[trigger] m[i]),
        !occurs(u, pattern),
        !occurs(v, pattern),
    ensures
        !occurs(u + m + v, pattern),
{
    let s = u + m + v;
    let n = pattern.len() as int;
    if occurs(s, pattern) {
        let j = choose|j: int| #[trigger] occurs_at(s, pattern, j);
        let here = s.subrange(j, j + n);
        let from = u.len() as int;
        let to = from + m.len();
        if j + n <= from {
            assert(u.subrange(j, j + n) == here);
            assert(occurs_at(u, pattern, j));
        } else if j >= to {
            assert(v.subrange(j - to, j - to + n) == here);
            assert(occurs_at(v, pattern, j - to));
        } else if j <= from {
            assert(here[from - j] == m[0]);
            assert(pattern.contains(pattern[from - j]));
        } else {
            assert(here[0] == m[j - from]);
            assert(pattern.contains(pattern[0]));
        }
    }
}

proof fn lemma_no_tag_around(x: Seq<char>, y: Seq<char>)
    requires
        !occurs(x, OPEN_TAG@),
        !occurs(y, OPEN_TAG@),
    ensures
        !occurs(x + JSON_FENCE@ + y, OPEN_TAG@),
        !occurs(x + FENCE@ + y, OPEN_TAG@),
        !occurs(x + " "@ + y, OPEN_TAG@),
{
    lemma_fences();
    reveal_strlit("<tool_call>");
    lemma_occurs_on_a_side(x, FENCE@, y, OPEN_TAG@);
    lemma_occurs_on_a_side(x, " "@, y, OPEN_TAG@);
    let s = x + JSON_FENCE@ + y;
    if occurs(s, OPEN_TAG@) {
        let j = choose|j: int| #[trigger] occurs_at(s, OPEN_TAG@, j);
        let here = s.subrange(j, j + OPEN_TAG@.len());
        let m = x.len() as int;
        if j + OPEN_TAG@.len() <= m {
            assert(x.subrange(j, j + OPEN_TAG@.len()) == here);
            assert(occurs_at(x, OPEN_TAG@, j));
        } else if j >= m + 7 {
            assert(y.subrange(j - m - 7, j - m - 7 + OPEN_TAG@.len()) == here);
            assert(occurs_at(y, OPEN_TAG@, j - m - 7));
        } else if j <= m {
            assert(here[m - j] == '`');
        } else {
            assert(here[0] == JSON_FENCE@[j - m]);
        }
    }
}

/// In a reply without tags a JSON fence counts as a blank, wherever it stands.
pub proof fn law_json_fence_counts_as_a_blank(x: Seq<char>, y: Seq<char>)
    requires
        !occurs(x, "<tool_call>"@),
        !occurs(y, "<tool_call>"@),
    ensures
        candidate_texts(x + "```json"@ + y) == candidate_texts(x + " "@ + y),
{
    lemma_fences();
    lemma_no_tag_around(x, y);
    let fenced = x + JSON_FENCE@ + y;
    let plain = x + " "@ + y;
    lemma_find(fenced, OPEN_TAG@);
    lemma_find(plain, OPEN_TAG@);
    lemma_replaced_at_fence(x, y);
    lemma_json_fences_around_blank(x, y);
    assert(replaced(plain, JSON_FENCE@, " "@) == replaced(fenced, JSON_FENCE@, " "@));
}

proof fn lemma_replaced_at_fence(x: Seq<char>, y: Seq<char>)
    ensures
        replaced(x + JSON_FENCE@ + y, JSON_FENCE@, " "@) == replaced(x, JSON_FENCE@, " "@) + " "@
            + replaced(y, JSON_FENCE@, " "@),
{
    lemma_fences();
    let w = JSON_FENCE@ + y;
    let s = x + w;
    let m = x.len() as int;
    assert(x + JSON_FENCE@ + y == s);
    assert forall|j: int| 0 <= j < m && m < j + JSON_FENCE@.len() implies !#[trigger] occurs_at(
        s,
        JSON_FENCE@,
        j,
    ) by {
        if occurs_at(s, JSON_FENCE@, j) {
            let here = s.subrange(j, j + JSON_FENCE@.len());
            assert(here[m - j] == s[m]);
            assert(s[m] == '`' && s[m + 1] == '`' && s[m + 2] == '`');
            assert(here[3] == s[j + 3]);
            assert(j + 3 == m || j + 3 == m + 1 || j + 3 == m + 2 || j + 3 < m);
            if j + 3 < m {
                assert(here[m - j] == JSON_FENCE@[m - j]);
            }
        }
    }
    lemma_replaced_splits(x, w, JSON_FENCE@, " "@);
    assert(w.subrange(0, 7) == JSON_FENCE@);
    let at: int = 0;
    assert(occurs_at(w, JSON_FENCE@, at));
    lemma_find_is(w, JSON_FENCE@, at);
    assert(w.skip(at + JSON_FENCE@.len()) == y);
    assert(w.take(at) + " "@ + replaced(y, JSON_FENCE@, " "@) == " "@ + replaced(
        y,
        JSON_FENCE@,
        " "@,
    ));
    assert(replaced(x, JSON_FENCE@, " "@) + (" "@ + replaced(y, JSON_FENCE@, " "@)) == replaced(
        x,
        JSON_FENCE@,
        " "@,
    ) + " "@ + replaced(y, JSON_FENCE@, " "@));
}

proof fn lemma_replaced_last(x: Seq<char>)
    requires
        x.len() == 0 || x.last() != '`',
    ensures
        replaced(x, JSON_FENCE@, " "@).len() == 0 || replaced(x, JSON_FENCE@, " "@).last() != '`',
    decreases x.len(),
{
    lemma_fences();
    lemma_find(x, JSON_FENCE@);
    match find(x, JSON_FENCE@) {
        Some(i) => {
            let rest = x.skip(i + JSON_FENCE@.len());
            if rest.len() > 0 {
                assert(rest.last() == x.last());
            }
            lemma_replaced_last(rest);
            let tail = replaced(rest, JSON_FENCE@, " "@);
            let whole = x.take(i) + " "@ + tail;
            if tail.len() > 0 {
                assert(whole.last() == tail.last());
            } else {
                assert(whole.last() == ' ');
            }
        },
        None => {},
    }
}

/// In a reply without tags a fence that no further backtick touches, and that is no JSON
/// fence, counts as a blank, wherever it stands.
pub proof fn law_fence_counts_as_a_blank(x: Seq<char>, y: Seq<char>)
    requires
        !occurs(x, "<tool_call>"@),
        !occurs(y, "<tool_call>"@),
        x.len() == 0 || x.last() != '`',
        y.len() == 0 || y[0] != '`',
        !seq!['j', 's', 'o', 'n'].is_prefix_of(y),
    ensures
        candidate_texts(x + "```"@ + y) == candidate_texts(x + " "@ + y),
{
    lemma_no_tag_around(x, y);
    lemma_find(x + FENCE@ + y, OPEN_TAG@);
    lemma_find(x + " "@ + y, OPEN_TAG@);
    lemma_json_fences_around_fence(x, y);
    lemma_json_fences_around_blank(x, y);
    lemma_replaced_last(x);
    lemma_fences_around_fence(
        replaced(x, JSON_FENCE@, " "@),
        replaced(y, JSON_FENCE@, " "@),
    );
}

proof fn lemma_json_fences_around_fence(x: Seq<char>, y: Seq<char>)
    requires
        x.len() == 0 || x.last() != '`',
        y.len() == 0 || y[0] != '`',
        !seq!['j', 's', 'o', 'n'].is_prefix_of(y),
    ensures
        replaced(x + FENCE@ + y, JSON_FENCE@, " "@) == replaced(x, JSON_FENCE@, " "@) + (FENCE@
            + replaced(y, JSON_FENCE@, " "@)),
{
    lemma_fences();
    let w = FENCE@ + y;
    let fenced = x + w;
    assert(x + FENCE@ + y == fenced);
    let m = x.len() as int;
    assert forall|j: int| 0 <= j < m && m < j + JSON_FENCE@.len() implies !#[trigger] occurs_at(
        fenced,
        JSON_FENCE@,
        j,
    ) by {
        if occurs_at(fenced, JSON_FENCE@, j) {
            let here = fenced.subrange(j, j + JSON_FENCE@.len());
            assert(here[m - j] == fenced[m]);
            assert(here[m - 1 - j] == fenced[m - 1]);
            assert(fenced[m] == '`' && fenced[m - 1] == x.last());
        }
    }
    lemma_replaced_splits(x, w, JSON_FENCE@, " "@);
    assert forall|j: int| 0 <= j < 3 && 3 < j + JSON_FENCE@.len() implies !#[trigger] occurs_at(
        FENCE@ + y,
        JSON_FENCE@,
        j,
    ) by {
        if occurs_at(w, JSON_FENCE@, j) {
            let here = w.subrange(j, j + JSON_FENCE@.len());
            assert(here[3 - j] == w[3]);
            assert(w[3] == y[0]);
            if j == 0 {
                assert(here[3] == w[3] && here[4] == w[4] && here[5] == w[5] && here[6] == w[6]);
                assert(y.take(4) == seq!['j', 's', 'o', 'n']);
            }
        }
    }
    lemma_replaced_splits(FENCE@, y, JSON_FENCE@, " "@);
    lemma_find(FENCE@, JSON_FENCE@);
    assert(replaced(FENCE@, JSON_FENCE@, " "@) == FENCE@);
}

proof fn lemma_json_fences_around_blank(x: Seq<char>, y: Seq<char>)
    ensures
        replaced(x + " "@ + y, JSON_FENCE@, " "@) == replaced(x, JSON_FENCE@, " "@) + (" "@
            + replaced(y, JSON_FENCE@, " "@)),
{
    lemma_fences();
    assert(x + " "@ + y == x + (" "@ + y));
    lemma_replaced_at_border(x, " "@ + y, JSON_FENCE@, " "@);
    lemma_replaced_at_border(" "@, y, JSON_FENCE@, " "@);
    lemma_find(" "@, JSON_FENCE@);
    assert(replaced(" "@, JSON_FENCE@, " "@) == " "@);
}

proof fn lemma_fences_around_fence(x: Seq<char>, y: Seq<char>)
    requires
        x.len() == 0 || x.last() != '`',
    ensures
        replaced(x + (FENCE@ + y), FENCE@, " "@) == replaced(x + (" "@ + y), FENCE@, " "@),
{
    lemma_fences();
    let v = FENCE@ + y;
    let k = x.len() as int;
    assert forall|j: int| 0 <= j < k && k < j + FENCE@.len() implies !#[trigger] occurs_at(
        x + v,
        FENCE@,
        j,
    ) by {
        if occurs_at(x + v, FENCE@, j) {
            let here = (x + v).subrange(j, j + FENCE@.len());
            assert(here[k - 1 - j] == x.last());
        }
    }
    lemma_replaced_splits(x, v, FENCE@, " "@);
    let at: int = 0;
    assert(v.subrange(0, 3) == FENCE@);
    assert(occurs_at(v, FENCE@, at));
    lemma_find_is(v, FENCE@, at);
    assert(v.skip(at + FENCE@.len()) == y);
    let rest = replaced(y, FENCE@, " "@);
    assert(v.take(at) + " "@ + rest == " "@ + rest);
    lemma_replaced_at_border(x, " "@ + y, FENCE@, " "@);
    lemma_replaced_at_border(" "@, y, FENCE@, " "@);
    lemma_find(" "@, FENCE@);
    assert(replaced(" "@, FENCE@, " "@) == " "@);
}

// ---------------------------------------------------------------------------------------
// Calls
// ---------------------------------------------------------------------------------------

proof fn lemma_member_names()
    ensures
        "name"@ != "arguments"@,
        "name"@ != "parameters"@,
        "arguments"@ != "parameters"@,
{
    super::laws::lemma_keys();
}

/// An object that names a declared tool is a call if what it holds under `arguments`, or under
/// `parameters` where there is no `arguments`, is an object or the text of one. Its arguments
/// are the text of that object.
pub proof fn law_call_with_arguments(
    candidate: Seq<char>,
    members: Map<Seq<char>, Json>,
    name: Seq<char>,
    key: Seq<char>,
    declared: Seq<Seq<char>>,
)
    requires
        parsed(candidate) == Some(Json::Object(members)),
        members.dom().contains("name"@),
        members["name"@] == Json::String(name),
        declared.contains(name),
        members.dom().contains(key),
        key == "arguments"@ || (key == "parameters"@ && !members.dom().contains("arguments"@)),
    ensures
        members[key] is Object ==> call_text(candidate, declared) == Some(
            (name, printed(members[key])),
        ),
        members[key] matches Json::String(inner) ==> {
            &&& parsed(inner) is Some && parsed(inner).unwrap() is Object ==> call_text(
                candidate,
                declared,
            ) == Some((name, printed(parsed(inner).unwrap())))
            &&& !(parsed(inner) is Some && parsed(inner).unwrap() is Object) ==> call_text(
                candidate,
                declared,
            ) is None
        },
        !(members[key] is Object) && !(members[key] is String) ==> call_text(
            candidate,
            declared,
        ) is None,
{
    lemma_member_names();
}

/// An object that names a declared tool and has neither `arguments` nor `parameters` is a call
/// with an empty object as its arguments.
pub proof fn law_call_without_arguments(
    candidate: Seq<char>,
    members: Map<Seq<char>, Json>,
    name: Seq<char>,
    declared: Seq<Seq<char>>,
)
    requires
        parsed(candidate) == Some(Json::Object(members)),
        members.dom().contains("name"@),
        members["name"@] == Json::String(name),
        declared.contains(name),
        !members.dom().contains("arguments"@),
        !members.dom().contains("parameters"@),
    ensures
        call_text(candidate, declared) == Some((name, printed(Json::Object(Map::empty())))),
{
}

/// What is no JSON, no object, or an object without the name of a declared tool is no call.
pub proof fn law_nothing_else_is_a_call(candidate: Seq<char>, declared: Seq<Seq<char>>)
    requires
        match parsed(candidate) {
            Some(Json::Object(members)) => members.dom().contains("name"@) ==> match members["name"@] {
                Json::String(name) => !declared.contains(name),
                _ => true,
            },
            _ => true,
        },
    ensures
        call_text(candidate, declared) is None,
{
}

/// An object is a call with the name and the arguments that it holds, as `law_call_with_arguments`
/// and the laws beside it say of its text.
pub proof fn law_objects_as_calls(
    members: Map<Seq<char>, Json>,
    value: Json,
    declared: Seq<Seq<char>>,
)
    ensures
        !(value is Object) ==> call_in(value, declared) is None,
        ({
            let call = call_in(Json::Object(members), declared);
            let named = members.dom().contains("name"@) && members["name"@] is String
                && declared.contains(members["name"@]->String_0);
            let name = members["name"@]->String_0;
            let given = members.dom().contains("arguments"@);
            let other = members.dom().contains("parameters"@);
            let raw = if given {
                members["arguments"@]
            } else {
                members["parameters"@]
            };
            &&& !named ==> call is None
            &&& named && !given && !other ==> call == Some((name, Json::Object(Map::empty())))
            &&& named && (given || other) && raw is Object ==> call == Some((name, raw))
            &&& named && (given || other) && raw is String ==> {
                let read = parsed(raw->String_0);
                &&& read is Some && read.unwrap() is Object ==> call == Some((name, read.unwrap()))
                &&& !(read is Some && read.unwrap() is Object) ==> call is None
            }
            &&& named && (given || other) && !(raw is Object) && !(raw is String) ==> call is None
        }),
{
}

/// An object is spelled as itself, and with `parameters` in place of `arguments` where it has
/// the one and not the other.
pub proof fn law_spellings(members: Map<Seq<char>, Json>)
    ensures
        is_spelling(Json::Object(members), Json::Object(members)),
        members.dom().contains("arguments"@) && !members.dom().contains("parameters"@)
            ==> is_spelling(
            Json::Object(
                members.remove("arguments"@).insert("parameters"@, members["arguments"@]),
            ),
            Json::Object(members),
        ),
{
}

/// A further candidate adds its call behind the others, under the number of its place, and
/// changes nothing of them. Where it is no call it adds nothing.
pub proof fn law_a_further_candidate(
    found: Seq<Seq<char>>,
    candidate: Seq<char>,
    declared: Seq<Seq<char>>,
)
    ensures
        calls_among(Seq::empty(), declared) == Seq::<CallText>::empty(),
        call_text(candidate, declared) is None ==> calls_among(found.push(candidate), declared)
            == calls_among(found, declared),
        call_text(candidate, declared) matches Some((name, arguments)) ==> calls_among(
            found.push(candidate),
            declared,
        ) == calls_among(found, declared).push(
            CallText {
                id: "call_"@ + decimal(found.len()),
                call_type: "function"@,
                name,
                arguments,
            },
        ),
{
    assert(found.push(candidate).drop_last() == found);
}

/// A tool is declared by the name of its function, whatever else it has.
pub proof fn law_names_of_tools(tools: Seq<ToolSpec>)
    ensures
        tool_names(tools).len() == tools.len(),
        forall|i: int|
            0 <= i < tools.len() ==> #[trigger] tool_names(tools)[i] == tools[i].function.name@,
{
}

/// The texts of names and of candidates are those of each in its place.
pub proof fn law_texts_in_their_places(names: Seq<&str>, texts: Seq<String>)
    ensures
        str_views(names).len() == names.len(),
        views(texts).len() == texts.len(),
        forall|i: int| 0 <= i < names.len() ==> #[trigger] str_views(names)[i] == names[i]@,
        forall|i: int| 0 <= i < texts.len() ==> #[trigger] views(texts)[i] == texts[i]@,
{
}

/// The texts of a call are those of its parts.
pub proof fn law_texts_of_a_call(call: ToolCall)
    ensures
        call@.id == call.id@,
        call@.call_type == call.call_type@,
        call@.name == call.function.name@,
        call@.arguments == call.function.arguments@,
{
}

/// A sound call is of the type `function`, names one of the tools, and its arguments are JSON
/// text between braces that is read as an object.
pub proof fn law_sound_calls(call: ToolCall, tools: Seq<ToolSpec>)
    requires
        is_sound_call(call, tools),
    ensures
        call.call_type@ == "function"@,
        exists|i: int|
            0 <= i < tools.len() && (#[trigger] tools[i]).function.name@ == call.function.name@,
        parsed(call.function.arguments@) is Some,
        parsed(call.function.arguments@).unwrap() is Object,
        call.function.arguments@.len() >= 2,
        call.function.arguments@[0] == '{',
        call.function.arguments@.last() == '}',
        call.function.arguments@ == printed(Json::Object(Map::empty()))
            ==> call.function.arguments@ == "{}"@,
{
    let names = tool_names(tools);
    let i = choose|i: int| 0 <= i < names.len() && names[i] == call.function.name@;
    assert(tools[i].function.name@ == call.function.name@);
}

/// The text of an object with a name and with arguments, under either key and as an object or
/// as its text, is a written call.
pub proof fn law_written_calls(name: Seq<char>, arguments: Json, key: Seq<char>)
    requires
        key == "arguments"@ || key == "parameters"@,
    ensures
        is_written_call(
            printed(
                Json::Object(Map::empty().insert("name"@, Json::String(name)).insert(key, arguments)),
            ),
            name,
            arguments,
        ),
        is_written_call(
            printed(
                Json::Object(
                    Map::empty().insert("name"@, Json::String(name)).insert(
                        key,
                        Json::String(printed(arguments)),
                    ),
                ),
            ),
            name,
            arguments,
        ),
{
}

} // verus!
