//! Searching and cutting of text, over the characters that a string views as.
use vstd::prelude::*;
use vstd::string::*;

pub mod laws;

verus! {

/// Whether `pattern` stands in `s` at index `i`.
pub open spec fn occurs_at(s: Seq<char>, pattern: Seq<char>, i: int) -> bool {
    0 <= i && i + pattern.len() <= s.len() && s.subrange(i, i + pattern.len()) == pattern
}

/// Whether `pattern` stands anywhere in `s`.
pub open spec fn occurs(s: Seq<char>, pattern: Seq<char>) -> bool {
    exists|i: int| #[trigger] occurs_at(s, pattern, i)
}

/// The index of the first occurrence of `pattern` in `s`.
pub open spec fn find(s: Seq<char>, pattern: Seq<char>) -> Option<int>
    decreases s.len(),
{
    if occurs_at(s, pattern, 0) {
        Some(0)
    } else if s.len() == 0 {
        None
    } else {
        match find(s.skip(1), pattern) {
            Some(i) => Some(i + 1),
            None => None,
        }
    }
}

/// The index of the last `c` in `s`.
pub open spec fn rfind(s: Seq<char>, c: char) -> Option<int>
    decreases s.len(),
{
    if s.len() == 0 {
        None
    } else if s.last() == c {
        Some(s.len() - 1)
    } else {
        rfind(s.drop_last(), c)
    }
}

/// `s` with each occurrence of `pattern`, taken from the left and without overlap, written
/// as `with`. An empty pattern replaces nothing.
pub open spec fn replaced(s: Seq<char>, pattern: Seq<char>, with: Seq<char>) -> Seq<char>
    decreases s.len(),
{
    match find(s, pattern) {
        Some(i) => if 0 <= i && 0 < pattern.len() && i + pattern.len() <= s.len() {
            s.take(i) + with + replaced(s.skip(i + pattern.len()), pattern, with)
        } else {
            s
        },
        None => s,
    }
}

/// The characters with the Unicode property `White_Space`.
pub open spec fn is_white_space(c: char) -> bool {
    ||| 0x9 <= c as u32 <= 0xd
    ||| c as u32 == 0x20
    ||| c as u32 == 0x85
    ||| c as u32 == 0xa0
    ||| c as u32 == 0x1680
    ||| 0x2000 <= c as u32 <= 0x200a
    ||| c as u32 == 0x2028
    ||| c as u32 == 0x2029
    ||| c as u32 == 0x202f
    ||| c as u32 == 0x205f
    ||| c as u32 == 0x3000
}

pub open spec fn trimmed_start(s: Seq<char>) -> Seq<char>
    decreases s.len(),
{
    if s.len() > 0 && is_white_space(s[0]) {
        trimmed_start(s.skip(1))
    } else {
        s
    }
}

pub open spec fn trimmed_end(s: Seq<char>) -> Seq<char>
    decreases s.len(),
{
    if s.len() > 0 && is_white_space(s.last()) {
        trimmed_end(s.drop_last())
    } else {
        s
    }
}

/// `s` without the white space at its two ends.
pub open spec fn trimmed(s: Seq<char>) -> Seq<char> {
    trimmed_end(trimmed_start(s))
}

/// The decimal digit `d`.
pub open spec fn digit(d: nat) -> char {
    (48 + d) as char
}

/// `n` in decimal digits, without leading zeros.
pub open spec fn decimal(n: nat) -> Seq<char>
    decreases n,
{
    if n < 10 {
        seq![digit(n)]
    } else {
        decimal(n / 10).push(digit(n % 10))
    }
}

/// What is found is an occurrence, and no earlier index holds one.
pub proof fn lemma_find(s: Seq<char>, pattern: Seq<char>)
    ensures
        match find(s, pattern) {
            Some(i) => occurs_at(s, pattern, i) && forall|j: int|
                0 <= j < i ==> !#[trigger] occurs_at(s, pattern, j),
            None => !occurs(s, pattern),
        },
    decreases s.len(),
{
    if occurs_at(s, pattern, 0) {
    } else if s.len() == 0 {
        assert(forall|i: int| #[trigger] occurs_at(s, pattern, i) ==> i == 0);
    } else {
        let tail = s.skip(1);
        lemma_find(tail, pattern);
        assert forall|j: int| 1 <= j implies #[trigger] occurs_at(s, pattern, j) == occurs_at(
            tail,
            pattern,
            j - 1,
        ) by {
            if j + pattern.len() <= s.len() {
                assert(s.subrange(j, j + pattern.len()) == tail.subrange(
                    j - 1,
                    j - 1 + pattern.len(),
                ));
            }
        }
        match find(tail, pattern) {
            Some(i) => {
                assert(occurs_at(s, pattern, i + 1));
                assert forall|j: int| 0 <= j < i + 1 implies !#[trigger] occurs_at(
                    s,
                    pattern,
                    j,
                ) by {
                    if j > 0 {
                        assert(!occurs_at(tail, pattern, j - 1));
                    }
                }
            },
            None => {
                if occurs(s, pattern) {
                    let j = choose|j: int| #[trigger] occurs_at(s, pattern, j);
                    assert(occurs_at(tail, pattern, j - 1));
                }
            },
        }
    }
}

/// An occurrence with none before it is what is found.
pub proof fn lemma_find_is(s: Seq<char>, pattern: Seq<char>, i: int)
    requires
        occurs_at(s, pattern, i),
        forall|j: int| 0 <= j < i ==> !#[trigger] occurs_at(s, pattern, j),
    ensures
        find(s, pattern) == Some(i),
{
    lemma_find(s, pattern);
    let k = find(s, pattern).unwrap();
    if k < i {
        assert(!occurs_at(s, pattern, k));
    }
}

/// The last index of a character is one at which it stands, and none after it does.
pub proof fn lemma_rfind(s: Seq<char>, c: char)
    ensures
        match rfind(s, c) {
            Some(i) => 0 <= i < s.len() && s[i] == c && forall|j: int|
                i < j < s.len() ==> s[j] != c,
            None => !s.contains(c),
        },
    decreases s.len(),
{
    if s.len() > 0 && s.last() != c {
        lemma_rfind(s.drop_last(), c);
        assert forall|j: int| 0 <= j < s.len() && s[j] == c implies s.drop_last()[j] == c && j
            < s.len() - 1 by {}
    }
}

/// A character with none after it is the last one.
pub proof fn lemma_rfind_is(s: Seq<char>, c: char, i: int)
    requires
        0 <= i < s.len(),
        s[i] == c,
        forall|j: int| i < j < s.len() ==> s[j] != c,
    ensures
        rfind(s, c) == Some(i),
{
    lemma_rfind(s, c);
}

/// No two numbers have the same digits.
pub proof fn lemma_decimal_distinct(a: nat, b: nat)
    requires
        decimal(a) == decimal(b),
    ensures
        a == b,
    decreases a,
{
    lemma_decimal_nonempty(a / 10);
    lemma_decimal_nonempty(b / 10);
    assert(decimal(a).last() == digit(a % 10));
    assert(decimal(b).last() == digit(b % 10));
    if a >= 10 && b >= 10 {
        assert(decimal(a).drop_last() == decimal(a / 10));
        assert(decimal(b).drop_last() == decimal(b / 10));
        lemma_decimal_distinct(a / 10, b / 10);
    }
}

proof fn lemma_decimal_nonempty(n: nat)
    ensures
        decimal(n).len() > 0,
{
}

/// The characters of `s`.
pub fn chars(s: &str) -> (r: Vec<char>)
    ensures
        r@ == s@,
{
    let mut r: Vec<char> = Vec::new();
    for c in it: s.chars()
        invariant
            r@ == it.seq().take(it.index()),
    {
        r.push(c);
    }
    r
}

/// Whether two texts hold the same characters.
pub fn same(a: &str, b: &str) -> (r: bool)
    ensures
        r == (a@ == b@),
{
    a.to_owned() == b.to_owned()
}

fn occurs_here(s: &Vec<char>, pattern: &Vec<char>, at: usize) -> (r: bool)
    requires
        at <= s.len(),
    ensures
        r == occurs_at(s@, pattern@, at as int),
{
    if pattern.len() > s.len() - at {
        return false;
    }
    let mut k: usize = 0;
    while k < pattern.len()
        invariant
            k <= pattern.len(),
            at + pattern.len() <= s.len(),
            forall|j: int| 0 <= j < k ==> s[at + j] == pattern[j],
        decreases pattern.len() - k,
    {
        if s[at + k] != pattern[k] {
            assert(s@.subrange(at as int, at + pattern@.len())[k as int] != pattern@[k as int]);
            return false;
        }
        k += 1;
    }
    assert(s@.subrange(at as int, at + pattern@.len()) == pattern@);
    true
}

/// The first occurrence of `pattern` in `s` from index `from` on.
pub fn find_from(s: &Vec<char>, pattern: &Vec<char>, from: usize) -> (r: Option<usize>)
    requires
        from <= s.len(),
    ensures
        r is Some <==> find(s@.skip(from as int), pattern@) is Some,
        r matches Some(i) ==> find(s@.skip(from as int), pattern@) == Some(i - from) && from <= i
            && i + pattern.len() <= s.len(),
{
    let mut at: usize = from;
    loop
        invariant
            from <= at <= s.len(),
            forall|j: int| from <= j < at ==> !#[trigger] occurs_at(s@, pattern@, j),
        decreases s.len() - at,
    {
        let ghost rest = s@.skip(from as int);
        proof {
            assert forall|j: int| 0 <= j implies #[trigger] occurs_at(rest, pattern@, j)
                == occurs_at(s@, pattern@, from + j) by {
                if from + j + pattern@.len() <= s@.len() {
                    assert(rest.subrange(j, j + pattern@.len()) == s@.subrange(
                        from + j,
                        from + j + pattern@.len(),
                    ));
                }
            }
        }
        if occurs_here(s, pattern, at) {
            proof {
                lemma_find_is(rest, pattern@, at - from);
            }
            return Some(at);
        }
        if at == s.len() {
            proof {
                lemma_find(rest, pattern@);
                match find(rest, pattern@) {
                    Some(i) => {
                        assert(occurs_at(s@, pattern@, from + i));
                    },
                    None => {},
                }
            }
            return None;
        }
        at += 1;
    }
}

/// Whether `pattern` stands anywhere in `s`.
pub fn contains(s: &str, pattern: &str) -> (r: bool)
    ensures
        r == occurs(s@, pattern@),
{
    let cs = chars(s);
    let ps = chars(pattern);
    proof {
        lemma_find(s@, pattern@);
        assert(s@.skip(0) == s@);
    }
    find_from(&cs, &ps, 0).is_some()
}

pub fn starts_with(s: &str, prefix: &str) -> (r: bool)
    ensures
        r == prefix@.is_prefix_of(s@),
{
    let cs = chars(s);
    let ps = chars(prefix);
    let r = occurs_here(&cs, &ps, 0);
    assert(r == prefix@.is_prefix_of(s@)) by {
        if prefix@.len() <= s@.len() {
            assert(s@.subrange(0, prefix@.len() as int) == s@.take(prefix@.len() as int));
        }
    }
    r
}

pub fn ends_with(s: &str, suffix: &str) -> (r: bool)
    ensures
        r == suffix@.is_suffix_of(s@),
{
    let cs = chars(s);
    let ps = chars(suffix);
    if ps.len() > cs.len() {
        return false;
    }
    occurs_here(&cs, &ps, cs.len() - ps.len())
}

/// The last index of `c` in `s`.
pub fn rfind_char(s: &Vec<char>, c: char) -> (r: Option<usize>)
    ensures
        r is Some <==> rfind(s@, c) is Some,
        r matches Some(i) ==> rfind(s@, c) == Some(i as int) && i < s.len(),
{
    let mut end: usize = s.len();
    assert(s@.take(end as int) == s@);
    while end > 0
        invariant
            end <= s.len(),
            rfind(s@, c) == rfind(s@.take(end as int), c),
        decreases end,
    {
        assert(s@.take(end as int).drop_last() == s@.take(end - 1));
        if s[end - 1] == c {
            return Some(end - 1);
        }
        end -= 1;
    }
    None
}

/// `s` with each occurrence of `pattern` written as `with`.
pub fn replace(s: &str, pattern: &str, with: &str) -> (r: String)
    requires
        pattern@.len() > 0,
    ensures
        r@ == replaced(s@, pattern@, with@),
{
    let cs = chars(s);
    let ps = chars(pattern);
    let mut out = String::new();
    let mut at: usize = 0;
    assert(s@.skip(0) == s@);
    loop
        invariant
            at <= cs.len(),
            cs@ == s@,
            ps@ == pattern@,
            pattern@.len() > 0,
            replaced(s@, pattern@, with@) == out@ + replaced(s@.skip(at as int), pattern@, with@),
        decreases cs.len() - at,
    {
        let ghost rest = s@.skip(at as int);
        match find_from(&cs, &ps, at) {
            Some(i) => {
                out.append(s.substring_char(at, i));
                out.append(with);
                assert(s@.subrange(at as int, i as int) == rest.take(i - at));
                assert(rest.skip(i - at + ps.len()) == s@.skip(i + ps.len()));
                at = i + ps.len();
            },
            None => {
                out.append(s.substring_char(at, cs.len()));
                assert(s@.subrange(at as int, cs@.len() as int) == rest);
                return out;
            },
        }
    }
}

pub fn white_space(c: char) -> (r: bool)
    ensures
        r == is_white_space(c),
{
    let n: u32 = c as u32;
    (0x9 <= n && n <= 0xd) || n == 0x20 || n == 0x85 || n == 0xa0 || n == 0x1680 || (0x2000 <= n
        && n <= 0x200a) || n == 0x2028 || n == 0x2029 || n == 0x202f || n == 0x205f || n == 0x3000
}

/// Where the trimmed part of `s[from..to]` begins and ends.
pub fn trim_range(s: &Vec<char>, from: usize, to: usize) -> (r: (usize, usize))
    requires
        from <= to <= s.len(),
    ensures
        from <= r.0 <= r.1 <= to,
        s@.subrange(r.0 as int, r.1 as int) == trimmed(s@.subrange(from as int, to as int)),
{
    let ghost whole = s@.subrange(from as int, to as int);
    let mut a: usize = from;
    while a < to && white_space(s[a])
        invariant
            from <= a <= to <= s.len(),
            whole == s@.subrange(from as int, to as int),
            trimmed_start(whole) == trimmed_start(s@.subrange(a as int, to as int)),
        decreases to - a,
    {
        assert(s@.subrange(a as int, to as int).skip(1) == s@.subrange(a + 1, to as int));
        a += 1;
    }
    let mut b: usize = to;
    while b > a && white_space(s[b - 1])
        invariant
            from <= a <= b <= to <= s.len(),
            trimmed(whole) == trimmed_end(s@.subrange(a as int, b as int)),
        decreases b,
    {
        assert(s@.subrange(a as int, b as int).drop_last() == s@.subrange(a as int, b - 1));
        b -= 1;
    }
    (a, b)
}

fn digit_text(d: usize) -> (r: &'static str)
    requires
        d < 10,
    ensures
        r@ == seq![digit(d as nat)],
{
    proof {
        reveal_strlit("0");
        reveal_strlit("1");
        reveal_strlit("2");
        reveal_strlit("3");
        reveal_strlit("4");
        reveal_strlit("5");
        reveal_strlit("6");
        reveal_strlit("7");
        reveal_strlit("8");
        reveal_strlit("9");
    }
    match d {
        0 => "0",
        1 => "1",
        2 => "2",
        3 => "3",
        4 => "4",
        5 => "5",
        6 => "6",
        7 => "7",
        8 => "8",
        _ => "9",
    }
}

/// `n` in decimal.
pub fn decimal_text(n: usize) -> (r: String)
    ensures
        r@ == decimal(n as nat),
    decreases n,
{
    if n < 10 {
        digit_text(n).to_owned()
    } else {
        let mut r = decimal_text(n / 10);
        r.append(digit_text(n % 10));
        r
    }
}

} // verus!
