//! Character sequences: the plain string operations the other modules are built from.

use vstd::prelude::*;
use vstd::string::*;

verus! {

/// `String::push`: appends one character at the end of the string.
pub assume_specification[ String::push ](s: &mut String, c: char)
    ensures
        final(s)@ == old(s)@.push(c),
;

/// Whether `pattern` occurs in `s` at position `at`.
pub open spec fn occurs_at(s: Seq<char>, pattern: Seq<char>, at: int) -> bool {
    &&& 0 <= at
    &&& at + pattern.len() <= s.len()
    &&& s.subrange(at, at + pattern.len()) == pattern
}

/// The first position at or after `from` at which `pattern` occurs in `s`.
pub open spec fn first_occurrence(s: Seq<char>, pattern: Seq<char>, from: int) -> Option<int>
    decreases s.len() + 1 - from,
{
    if from < 0 || from > s.len() {
        None
    } else if occurs_at(s, pattern, from) {
        Some(from)
    } else {
        first_occurrence(s, pattern, from + 1)
    }
}

/// What `first_occurrence` finds is an occurrence, and none stands before it.
pub proof fn lemma_first_occurrence(s: Seq<char>, pattern: Seq<char>, from: int)
    requires
        0 <= from,
    ensures
        match first_occurrence(s, pattern, from) {
            Some(at) => {
                &&& from <= at
                &&& occurs_at(s, pattern, at)
                &&& forall|j: int| from <= j < at ==> !#[trigger] occurs_at(s, pattern, j)
            },
            None => forall|j: int| from <= j ==> !#[trigger] occurs_at(s, pattern, j),
        },
    decreases s.len() + 1 - from,
{
    if from <= s.len() && !occurs_at(s, pattern, from) {
        lemma_first_occurrence(s, pattern, from + 1);
    }
}

/// The parts joined together, in order.
pub open spec fn concat(parts: Seq<Seq<char>>) -> Seq<char>
    decreases parts.len(),
{
    if parts.len() == 0 {
        Seq::empty()
    } else {
        concat(parts.drop_last()) + parts.last()
    }
}

pub proof fn lemma_concat_push(parts: Seq<Seq<char>>, part: Seq<char>)
    ensures
        concat(parts.push(part)) == concat(parts) + part,
{
    assert(parts.push(part).drop_last() == parts);
}

/// Whether `a` comes before `b` from position `from` on: at the first difference it has the
/// smaller character, or it ends first.
pub open spec fn less_from(a: Seq<char>, b: Seq<char>, from: int) -> bool
    decreases b.len() - from,
{
    if from < 0 || from >= b.len() {
        false
    } else if from >= a.len() {
        true
    } else if a[from] != b[from] {
        a[from] < b[from]
    } else {
        less_from(a, b, from + 1)
    }
}

/// The order of strings: character by character, a prefix first.
pub open spec fn less(a: Seq<char>, b: Seq<char>) -> bool {
    less_from(a, b, 0)
}

/// Of two different strings exactly one comes first.
pub proof fn lemma_less_total(a: Seq<char>, b: Seq<char>, from: int)
    requires
        0 <= from <= a.len(),
        from <= b.len(),
        forall|i: int| 0 <= i < from ==> a[i] == b[i],
    ensures
        !(less_from(a, b, from) && less_from(b, a, from)),
        less_from(a, b, from) || less_from(b, a, from) || a == b,
    decreases b.len() - from,
{
    if from < a.len() && from < b.len() && a[from] == b[from] {
        lemma_less_total(a, b, from + 1);
    } else if from == a.len() && from == b.len() {
        assert(a =~= b);
    }
}

/// The order of strings is transitive.
pub proof fn lemma_less_transitive(a: Seq<char>, b: Seq<char>, c: Seq<char>, from: int)
    requires
        0 <= from,
        less_from(a, b, from),
        less_from(b, c, from),
    ensures
        less_from(a, c, from),
    decreases b.len() - from,
{
    if from < a.len() && a[from] == b[from] && b[from] == c[from] {
        lemma_less_transitive(a, b, c, from + 1);
    }
}

/// Does one string come before the other?
pub(crate) fn is_less(a: &[char], b: &[char]) -> (answer: bool)
    ensures
        answer == less(a@, b@),
{
    let mut i: usize = 0;
    while i < b.len()
        invariant
            i <= b@.len(),
            less(a@, b@) == less_from(a@, b@, i as int),
        decreases b@.len() - i,
    {
        if i >= a.len() {
            return true;
        }
        if a[i] != b[i] {
            return a[i] < b[i];
        }
        i += 1;
    }
    false
}

/// The strings by value.
pub open spec fn texts(strings: Seq<String>) -> Seq<Seq<char>> {
    strings.map_values(|s: String| s@)
}

/// The characters of a string.
pub(crate) fn chars_of(s: &str) -> (chars: Vec<char>)
    ensures
        chars@ == s@,
{
    let mut chars: Vec<char> = Vec::new();
    for c in it: s.chars()
        invariant
            chars@ == it.seq().take(it.index() as int),
            it.seq() == s@,
    {
        chars.push(c);
    }
    chars
}

/// The string made of `chars`.
pub(crate) fn string_of(chars: &[char]) -> (s: String)
    ensures
        s@ == chars@,
{
    let mut s = String::new();
    let mut i: usize = 0;
    while i < chars.len()
        invariant
            i <= chars@.len(),
            s@ == chars@.take(i as int),
        decreases chars@.len() - i,
    {
        s.push(chars[i]);
        i += 1;
    }
    s
}

/// Whether two strings hold the same characters.
pub(crate) fn same_text(a: &str, b: &str) -> (same: bool)
    ensures
        same == (a@ == b@),
{
    let x = chars_of(a);
    let y = chars_of(b);
    same_chars(&x, &y)
}

/// Whether two sequences hold the same characters.
pub(crate) fn same_chars(a: &[char], b: &[char]) -> (same: bool)
    ensures
        same == (a@ == b@),
{
    assert(a@.subrange(0, a@.len() as int) == a@);
    a.len() == b.len() && is_at(a, b, 0)
}

/// Appends `s[from..to]` to `out`.
pub(crate) fn push_range(out: &mut Vec<char>, s: &[char], from: usize, to: usize)
    requires
        from <= to <= s@.len(),
    ensures
        final(out)@ == old(out)@ + s@.subrange(from as int, to as int),
{
    let mut i: usize = from;
    while i < to
        invariant
            from <= i <= to <= s@.len(),
            out@ == old(out)@ + s@.subrange(from as int, i as int),
        decreases to - i,
    {
        out.push(s[i]);
        i += 1;
    }
}

/// Appends a string to `out`.
pub(crate) fn push_text(out: &mut Vec<char>, text: &str)
    ensures
        final(out)@ == old(out)@ + text@,
{
    let chars = chars_of(text);
    push_range(out, &chars, 0, chars.len());
}

/// Tests whether `pattern` occurs in `s` at `at`.
pub(crate) fn is_at(s: &[char], pattern: &[char], at: usize) -> (found: bool)
    ensures
        found == occurs_at(s@, pattern@, at as int),
{
    if at > s.len() || s.len() - at < pattern.len() {
        return false;
    }
    let mut i: usize = 0;
    let n: usize = s.len();
    while i < pattern.len()
        invariant
            i <= pattern@.len(),
            at + pattern@.len() <= n,
            n == s@.len(),
            s@.subrange(at as int, at + i) == pattern@.take(i as int),
        decreases pattern@.len() - i,
    {
        if s[at + i] != pattern[i] {
            assert(s@.subrange(at as int, at + pattern@.len())[i as int] != pattern@[i as int]);
            return false;
        }
        i += 1;
    }
    assert(pattern@.take(i as int) == pattern@);
    true
}

/// Searches `s` for `pattern` from `from` on.
pub(crate) fn find(s: &[char], pattern: &[char], from: usize) -> (found: Option<usize>)
    ensures
        match found {
            Some(at) => first_occurrence(s@, pattern@, from as int) == Some(at as int),
            None => first_occurrence(s@, pattern@, from as int) is None,
        },
{
    let mut at: usize = from;
    while at < s.len()
        invariant
            from <= at,
            at <= s@.len() || at == from,
            first_occurrence(s@, pattern@, from as int) == first_occurrence(
                s@,
                pattern@,
                at as int,
            ),
        decreases s@.len() - at,
    {
        if is_at(s, pattern, at) {
            return Some(at);
        }
        at += 1;
    }
    if is_at(s, pattern, at) {
        return Some(at);
    }
    proof {
        reveal_with_fuel(first_occurrence, 2);
    }
    None
}

} // verus!
