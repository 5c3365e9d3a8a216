//! Type displays in the form the consumer of the diagnostics reads.

use vstd::prelude::*;

use crate::text;
use crate::text::{chars_of, find, is_at, push_range, push_text, same_chars, string_of};

verus! {

/// Whether `char::is_alphanumeric` holds of a character: the alphabetic and numeric
/// characters of the Unicode tables that the standard library carries.
pub uninterp spec fn unicode_alphanumeric(c: char) -> bool;

/// `char::is_alphanumeric`: the answer is a function of the character alone.
pub assume_specification[ char::is_alphanumeric ](c: char) -> (answer: bool)
    ensures
        answer == unicode_alphanumeric(c),
;

/// An ASCII letter or digit.
pub open spec fn ascii_alphanumeric(c: char) -> bool {
    ||| '0' <= c <= '9'
    ||| 'A' <= c <= 'Z'
    ||| 'a' <= c <= 'z'
}

/// A character that the name of a function may hold.
pub open spec fn name_char(c: char) -> bool {
    if c as u32 <= 127 {
        ascii_alphanumeric(c) || c == '_'
    } else {
        unicode_alphanumeric(c)
    }
}

fn is_ascii_alphanumeric(c: char) -> (answer: bool)
    ensures
        answer == ascii_alphanumeric(c),
{
    ('0' <= c && c <= '9') || ('A' <= c && c <= 'Z') || ('a' <= c && c <= 'z')
}

fn is_name_char(c: char) -> (answer: bool)
    ensures
        answer == name_char(c),
{
    if c <= '\u{7f}' {
        is_ascii_alphanumeric(c) || c == '_'
    } else {
        c.is_alphanumeric()
    }
}

// -- string literals --------------------------------------------------------------------

/// A stretch of a display: a quoted string literal, or what stands between two of them.
pub struct Segment {
    pub quoted: bool,
    pub text: Seq<char>,
}

/// The first quote character at or after `from`.
pub open spec fn opening_quote(s: Seq<char>, from: int) -> Option<int>
    decreases s.len() - from,
{
    if from < 0 || from >= s.len() {
        None
    } else if s[from] == '"' || s[from] == '\'' {
        Some(from)
    } else {
        opening_quote(s, from + 1)
    }
}

/// The first `quote` at or after `from` that no backslash escapes.
pub open spec fn closing_quote(s: Seq<char>, from: int, quote: char) -> Option<int>
    decreases s.len() + 1 - from,
{
    if from < 0 || from >= s.len() {
        None
    } else if s[from] == '\\' {
        closing_quote(s, from + 2, quote)
    } else if s[from] == quote {
        Some(from)
    } else {
        closing_quote(s, from + 1, quote)
    }
}

pub proof fn lemma_opening_quote(s: Seq<char>, from: int)
    requires
        0 <= from,
    ensures
        match opening_quote(s, from) {
            Some(at) => {
                &&& from <= at < s.len()
                &&& (s[at] == '"' || s[at] == '\'')
                &&& forall|j: int| from <= j < at ==> s[j] != '"' && s[j] != '\''
            },
            None => forall|j: int| from <= j < s.len() ==> s[j] != '"' && s[j] != '\'',
        },
    decreases s.len() - from,
{
    if from < s.len() && s[from] != '"' && s[from] != '\'' {
        lemma_opening_quote(s, from + 1);
    }
}

pub proof fn lemma_closing_quote(s: Seq<char>, from: int, quote: char)
    requires
        0 <= from,
    ensures
        closing_quote(s, from, quote) matches Some(at) ==> from <= at < s.len() && s[at] == quote,
    decreases s.len() + 1 - from,
{
    if from < s.len() {
        if s[from] == '\\' {
            lemma_closing_quote(s, from + 2, quote);
        } else if s[from] != quote {
            lemma_closing_quote(s, from + 1, quote);
        }
    }
}

/// `s` from `from` on, cut at its string literals. Plain and quoted stretches alternate,
/// starting with a plain one; a literal that nothing closes runs to the end.
pub open spec fn segments(s: Seq<char>, from: int) -> Seq<Segment>
    decreases s.len() - from,
{
    if from < 0 || from > s.len() {
        Seq::empty()
    } else {
        match opening_quote(s, from) {
            None => seq![Segment { quoted: false, text: s.skip(from) }],
            Some(open) => {
                let plain = Segment { quoted: false, text: s.subrange(from, open) };
                match closing_quote(s, open + 1, s[open]) {
                    None => seq![plain, Segment { quoted: true, text: s.skip(open) }],
                    Some(close) => {
                        proof {
                            lemma_opening_quote(s, from);
                            lemma_closing_quote(s, open + 1, s[open]);
                        }
                        seq![
                            plain,
                            Segment { quoted: true, text: s.subrange(open, close + 1) },
                        ] + segments(s, close + 1)
                    },
                }
            },
        }
    }
}

/// `out` is one of the results `rewrite` may give for `span`.
pub open spec fn rewrites<F: Fn(&[char]) -> Vec<char>>(
    rewrite: F,
    span: Seq<char>,
    out: Seq<char>,
) -> bool {
    exists|input: &[char], output: Vec<char>|
        input@ == span && output@ == out && #[trigger] call_ensures(rewrite, (input,), output)
}

/// `parts` holds the segments in order: the quoted ones as they are, the others rewritten.
pub open spec fn rewritten_parts<F: Fn(&[char]) -> Vec<char>>(
    rewrite: F,
    segments: Seq<Segment>,
    parts: Seq<Seq<char>>,
) -> bool {
    &&& parts.len() == segments.len()
    &&& forall|i: int|
        0 <= i < parts.len() ==> if segments[i].quoted {
            #[trigger] parts[i] == segments[i].text
        } else {
            rewrites(rewrite, segments[i].text, parts[i])
        }
}

fn find_opening_quote(s: &[char], from: usize) -> (found: Option<usize>)
    ensures
        match found {
            Some(at) => opening_quote(s@, from as int) == Some(at as int),
            None => opening_quote(s@, from as int) is None,
        },
{
    let mut at: usize = from;
    while at < s.len()
        invariant
            opening_quote(s@, from as int) == opening_quote(s@, at as int),
        decreases s@.len() - at,
    {
        if s[at] == '"' || s[at] == '\'' {
            return Some(at);
        }
        at += 1;
    }
    None
}

fn find_closing_quote(s: &[char], from: usize, quote: char) -> (found: Option<usize>)
    ensures
        match found {
            Some(at) => closing_quote(s@, from as int, quote) == Some(at as int),
            None => closing_quote(s@, from as int, quote) is None,
        },
{
    let mut at: usize = from;
    while at < s.len()
        invariant
            closing_quote(s@, from as int, quote) == closing_quote(s@, at as int, quote),
        decreases s@.len() - at,
    {
        if s[at] == '\\' {
            if s.len() - at < 2 {
                proof {
                    reveal_with_fuel(closing_quote, 2);
                }
                return None;
            }
            at += 2;
        } else if s[at] == quote {
            return Some(at);
        } else {
            at += 1;
        }
    }
    None
}

/// Applies `rewrite` to the spans of `text` outside `"…"` and `'…'` string literals
/// (backslash escapes respected); quoted spans are copied through verbatim.
pub fn rewrite_outside_quotes<F: Fn(&[char]) -> Vec<char>>(text: &str, rewrite: F) -> (out: String)
    requires
        forall|span: &[char]| #[trigger] call_requires(rewrite, (span,)),
    ensures
        exists|parts: Seq<Seq<char>>|
            #[trigger] rewritten_parts(rewrite, segments(text@, 0), parts) && out@ == text::concat(parts),
{
    let s = chars_of(text);
    let mut out: Vec<char> = Vec::new();
    let ghost mut parts: Seq<Seq<char>> = Seq::empty();
    let ghost mut done: Seq<Segment> = Seq::empty();
    let n: usize = s.len();
    let mut from: usize = 0;
    assert(done + segments(s@, 0) == segments(s@, 0));
    loop
        invariant
            from <= n,
            n == s@.len(),
            s@ == text@,
            forall|span: &[char]| #[trigger] call_requires(rewrite, (span,)),
            done + segments(s@, from as int) == segments(s@, 0),
            rewritten_parts(rewrite, done, parts),
            out@ == text::concat(parts),
        decreases s@.len() - from,
    {
        match find_opening_quote(&s, from) {
            None => {
                let mut span: Vec<char> = Vec::new();
                push_range(&mut span, &s, from, n);
                let mut plain = rewrite(span.as_slice());
                let ghost text0 = plain@;
                out.append(&mut plain);
                proof {
                    assert(span@ == s@.skip(from as int));
                    let last = Segment { quoted: false, text: s@.skip(from as int) };
                    assert(rewrites(rewrite, last.text, text0));
                    text::lemma_concat_push(parts, text0);
                    parts = parts.push(text0);
                    done = done.push(last);
                    assert(done == segments(s@, 0));
                    assert(rewritten_parts(rewrite, done, parts));
                }
                return string_of(&out);
            },
            Some(open) => {
                proof {
                    lemma_opening_quote(s@, from as int);
                }
                let quote = s[open];
                let mut span: Vec<char> = Vec::new();
                push_range(&mut span, &s, from, open);
                let mut plain = rewrite(span.as_slice());
                let ghost text0 = plain@;
                out.append(&mut plain);
                let ghost first = Segment {
                    quoted: false,
                    text: s@.subrange(from as int, open as int),
                };
                proof {
                    assert(span@ == first.text);
                    assert(rewrites(rewrite, first.text, text0));
                    text::lemma_concat_push(parts, text0);
                    parts = parts.push(text0);
                }
                match find_closing_quote(&s, open + 1, quote) {
                    None => {
                        push_range(&mut out, &s, open, n);
                        proof {
                            let last = Segment { quoted: true, text: s@.skip(open as int) };
                            assert(s@.subrange(open as int, s@.len() as int) == last.text);
                            text::lemma_concat_push(parts, last.text);
                            parts = parts.push(last.text);
                            done = done.push(first).push(last);
                            assert(done == segments(s@, 0));
                            assert(rewritten_parts(rewrite, done, parts));
                        }
                        return string_of(&out);
                    },
                    Some(close) => {
                        proof {
                            lemma_closing_quote(s@, open + 1, quote);
                        }
                        push_range(&mut out, &s, open, close + 1);
                        proof {
                            let last = Segment {
                                quoted: true,
                                text: s@.subrange(open as int, close + 1),
                            };
                            text::lemma_concat_push(parts, last.text);
                            parts = parts.push(last.text);
                            let before_done = done;
                            done = done.push(first).push(last);
                            assert(segments(s@, from as int) == seq![first, last] + segments(
                                s@,
                                close + 1,
                            ));
                            assert(done + segments(s@, close + 1) == before_done + (seq![
                                first,
                                last,
                            ] + segments(s@, close + 1)));
                        }
                        from = close + 1;
                    },
                }
            },
        }
    }
}

// -- spans between literals -------------------------------------------------------------

/// The keyword that starts the display of a named function.
pub open spec fn def_keyword() -> Seq<char> {
    seq!['d', 'e', 'f', ' ']
}

/// `s[at]` is a star that marks the exact form of the class name it follows (`float*`).
pub open spec fn star_marker(s: Seq<char>, at: int) -> bool {
    0 < at < s.len() && s[at] == '*' && ascii_alphanumeric(s[at - 1])
}

/// A named signature (`def name(`) starts at `at`; its parenthesis stands at `paren`.
pub open spec fn named_signature(s: Seq<char>, at: int, paren: int) -> bool {
    &&& text::occurs_at(s, def_keyword(), at)
    &&& at == 0 || !ascii_alphanumeric(s[at - 1])
    &&& at + 4 < paren < s.len()
    &&& s[paren] == '('
    &&& forall|j: int| at + 4 <= j < paren ==> name_char(#[trigger] s[j])
}

/// A span from `from` on without its star markers and without the names of its
/// signatures: of `def name(` only the parenthesis stays.
pub open spec fn plain_form(s: Seq<char>, from: int) -> Seq<char>
    decreases s.len() - from,
{
    if from < 0 || from >= s.len() {
        Seq::empty()
    } else if star_marker(s, from) {
        plain_form(s, from + 1)
    } else if exists|paren: int| named_signature(s, from, paren) {
        plain_form(s, choose|paren: int| named_signature(s, from, paren))
    } else {
        seq![s[from]] + plain_form(s, from + 1)
    }
}

/// At most one parenthesis closes the name that starts at a given position.
proof fn lemma_signature_unique(s: Seq<char>, at: int, paren: int, other: int)
    requires
        named_signature(s, at, paren),
        named_signature(s, at, other),
    ensures
        paren == other,
{
    assert(!name_char('('));
    if paren < other {
        assert(name_char(s[paren]));
    } else if other < paren {
        assert(name_char(s[other]));
    }
}

/// The parenthesis of the named signature that starts at `at`, if one does.
fn signature_paren(s: &[char], at: usize) -> (found: Option<usize>)
    requires
        at < s@.len(),
    ensures
        match found {
            Some(paren) => named_signature(s@, at as int, paren as int),
            None => forall|paren: int| !named_signature(s@, at as int, paren),
        },
{
    let keyword: [char; 4] = ['d', 'e', 'f', ' '];
    assert(keyword@ == def_keyword());
    if !is_at(s, keyword.as_slice(), at) {
        return None;
    }
    if at > 0 && is_ascii_alphanumeric(s[at - 1]) {
        return None;
    }
    let mut i: usize = at + 4;
    while i < s.len()
        invariant
            at + 4 <= i <= s@.len(),
            text::occurs_at(s@, def_keyword(), at as int),
            at == 0 || !ascii_alphanumeric(s@[at - 1]),
            forall|j: int| at + 4 <= j < i ==> name_char(#[trigger] s@[j]),
        decreases s@.len() - i,
    {
        if s[i] == '(' {
            if i > at + 4 {
                return Some(i);
            }
            proof {
                assert forall|paren: int| !named_signature(s@, at as int, paren) by {
                    assert(!name_char('('));
                    if named_signature(s@, at as int, paren) {
                        assert(name_char(s@[i as int]));
                    }
                }
            }
            return None;
        }
        if !is_name_char(s[i]) {
            proof {
                assert forall|paren: int| !named_signature(s@, at as int, paren) by {
                    if named_signature(s@, at as int, paren) {
                        if paren > i {
                            assert(name_char(s@[i as int]));
                        } else if paren < i {
                            assert(name_char(s@[paren]));
                            assert(!name_char('('));
                        }
                    }
                }
            }
            return None;
        }
        i += 1;
    }
    proof {
        assert forall|paren: int| !named_signature(s@, at as int, paren) by {
            if named_signature(s@, at as int, paren) {
                assert(name_char(s@[paren]));
                assert(!name_char('('));
            }
        }
    }
    None
}

/// Drops the star markers and the signature names of one span.
fn rewrite_span(s: &[char]) -> (out: Vec<char>)
    ensures
        out@ == plain_form(s@, 0),
{
    let mut out: Vec<char> = Vec::new();
    let mut i: usize = 0;
    while i < s.len()
        invariant
            i <= s@.len(),
            out@ + plain_form(s@, i as int) == plain_form(s@, 0),
        decreases s@.len() - i,
    {
        let ghost rest = plain_form(s@, i as int);
        if s[i] == '*' && i > 0 && is_ascii_alphanumeric(s[i - 1]) {
            i += 1;
        } else {
            match signature_paren(s, i) {
                Some(paren) => {
                    proof {
                        let chosen = choose|p: int| named_signature(s@, i as int, p);
                        lemma_signature_unique(s@, i as int, paren as int, chosen);
                    }
                    i = paren;
                },
                None => {
                    out.push(s[i]);
                    i += 1;
                    assert(out@ + plain_form(s@, i as int) == out@.drop_last() + rest);
                },
            }
        }
    }
    out
}

// -- modules ----------------------------------------------------------------------------

/// `s` from `from` on with its module displays (`<module 'x'>`) in the form `Module("x")`.
/// A prefix that no `'>` follows stays as it is.
pub open spec fn module_form(s: Seq<char>, from: int) -> Seq<char>
    decreases s.len() - from,
{
    let open = "<module '"@;
    let close = "'>"@;
    if from < 0 || from > s.len() {
        Seq::empty()
    } else {
        match text::first_occurrence(s, open, from) {
            None => s.skip(from),
            Some(at) => {
                let name = at + open.len();
                proof {
                    reveal_strlit("<module '");
                    text::lemma_first_occurrence(s, open, from);
                    text::lemma_first_occurrence(s, close, name);
                }
                match text::first_occurrence(s, close, name) {
                    Some(end) => s.subrange(from, at) + "Module(\""@ + s.subrange(name, end)
                        + "\")"@ + module_form(s, end + close.len()),
                    None => s.subrange(from, at) + open + module_form(s, name),
                }
            },
        }
    }
}

fn rewrite_modules(s: &[char]) -> (out: Vec<char>)
    ensures
        out@ == module_form(s@, 0),
{
    let open = chars_of("<module '");
    let close = chars_of("'>");
    let mut out: Vec<char> = Vec::new();
    let mut from: usize = 0;
    proof {
        reveal_strlit("<module '");
        reveal_strlit("'>");
    }
    let n: usize = s.len();
    loop
        invariant
            from <= n,
            n == s@.len(),
            open@ == "<module '"@,
            close@ == "'>"@,
            open@.len() == 9,
            close@.len() == 2,
            out@ + module_form(s@, from as int) == module_form(s@, 0),
        decreases n - from,
    {
        let at: usize = match find(s, &open, from) {
            Some(at) => at,
            None => {
                push_range(&mut out, s, from, n);
                assert(s@.subrange(from as int, n as int) == s@.skip(from as int));
                return out;
            },
        };
        proof {
            text::lemma_first_occurrence(s@, open@, from as int);
        }
        let ghost before = out@;
        let ghost rest = module_form(s@, from as int);
        push_range(&mut out, s, from, at);
        let name: usize = at + open.len();
        match find(s, &close, name) {
            Some(end) => {
                proof {
                    text::lemma_first_occurrence(s@, close@, name as int);
                }
                push_text(&mut out, "Module(\"");
                push_range(&mut out, s, name, end);
                push_text(&mut out, "\")");
                from = end + close.len();
            },
            None => {
                push_text(&mut out, "<module '");
                from = name;
            },
        }
        assert(out@ + module_form(s@, from as int) == before + rest);
    }
}

/// One segment of a display in its final form.
pub open spec fn segment_form(segment: Segment) -> Seq<char> {
    if segment.quoted {
        segment.text
    } else {
        plain_form(segment.text, 0)
    }
}

/// The display `s` in the consumer's form: module displays rewritten first, then every
/// stretch outside the string literals stripped of star markers and signature names.
pub open spec fn normalized(s: Seq<char>) -> Seq<char> {
    text::concat(segments(module_form(s, 0), 0).map_values(|g: Segment| segment_form(g)))
}

/// Rewrites a type display that the consumer's type-string algebra would misread:
/// exact-form markers (`float*` -> `float`), module literals (`<module 'x'>` ->
/// `Module("x")`), and named function signatures (`def f(x) -> R` -> `(x) -> R`).
pub fn normalize_type_display(text: &str) -> (out: String)
    ensures
        out@ == normalized(text@),
{
    let s = chars_of(text);
    let with_modules = string_of(&rewrite_modules(&s));
    let rewrite = |span: &[char]| -> (r: Vec<char>)
        ensures
            r@ == plain_form(span@, 0),
        { rewrite_span(span) };
    let out = rewrite_outside_quotes(with_modules.as_str(), rewrite);
    proof {
        let cut = segments(module_form(text@, 0), 0);
        let parts = choose|parts: Seq<Seq<char>>|
            #[trigger] rewritten_parts(rewrite, cut, parts) && out@ == text::concat(parts);
        assert(parts == cut.map_values(|g: Segment| segment_form(g)));
    }
    out
}

// -- `Self` type variables --------------------------------------------------------------

/// The class of a method that binds a `Self` type variable.
#[derive(Debug)]
pub struct SelfOwner {
    pub method: String,
    pub class: String,
}

/// The class that the first of the owners from `from` on gives for a method.
pub open spec fn owner_of(owners: Seq<SelfOwner>, method: Seq<char>, from: int) -> Option<Seq<char>>
    decreases owners.len() - from,
{
    if from < 0 || from >= owners.len() {
        None
    } else if owners[from].method@ == method {
        Some(owners[from].class@)
    } else {
        owner_of(owners, method, from + 1)
    }
}

/// Where the name that starts at `from` ends.
pub open spec fn name_end(s: Seq<char>, from: int) -> int
    decreases s.len() - from,
{
    if 0 <= from < s.len() && name_char(s[from]) {
        name_end(s, from + 1)
    } else {
        from
    }
}

/// How the display of a `Self` type variable starts; the name of the method that binds it
/// follows.
pub open spec fn self_prefix() -> Seq<char> {
    seq!['S', 'e', 'l', 'f', '@']
}

/// The name of the class for the `Self` type variable that is displayed at `at`.
pub open spec fn self_class(owners: Seq<SelfOwner>, s: Seq<char>, at: int) -> Option<Seq<char>> {
    if text::occurs_at(s, self_prefix(), at) && (at == 0 || !name_char(s[at - 1])) {
        owner_of(owners, s.subrange(at + 5, name_end(s, at + 5)), 0)
    } else {
        None
    }
}

/// A span from `from` on with its `Self` type variables named after their classes.
pub open spec fn self_form(owners: Seq<SelfOwner>, s: Seq<char>, from: int) -> Seq<char>
    decreases s.len() - from,
{
    if from < 0 || from >= s.len() {
        Seq::empty()
    } else {
        match self_class(owners, s, from) {
            Some(class) => {
                proof {
                    lemma_name_end(s, from + 5);
                }
                self_prefix() + class + self_form(owners, s, name_end(s, from + 5))
            },
            None => seq![s[from]] + self_form(owners, s, from + 1),
        }
    }
}

pub proof fn lemma_name_end(s: Seq<char>, from: int)
    requires
        0 <= from <= s.len(),
    ensures
        from <= name_end(s, from) <= s.len(),
    decreases s.len() - from,
{
    if from < s.len() && name_char(s[from]) {
        lemma_name_end(s, from + 1);
    }
}

/// One segment of a display with its `Self` type variables named after their classes.
pub open spec fn named_segment(owners: Seq<SelfOwner>, segment: Segment) -> Seq<char> {
    if segment.quoted {
        segment.text
    } else {
        self_form(owners, segment.text, 0)
    }
}

/// The display `s` with the `Self` type variables outside its string literals named after
/// their classes.
pub open spec fn class_named(owners: Seq<SelfOwner>, s: Seq<char>) -> Seq<char> {
    text::concat(segments(s, 0).map_values(|g: Segment| named_segment(owners, g)))
}

fn find_owner(owners: &Vec<SelfOwner>, method: &[char]) -> (found: Option<usize>)
    ensures
        match found {
            Some(i) => i < owners@.len() && owner_of(owners@, method@, 0) == Some(
                owners@[i as int].class@,
            ),
            None => owner_of(owners@, method@, 0) is None,
        },
{
    let mut i: usize = 0;
    while i < owners.len()
        invariant
            i <= owners@.len(),
            owner_of(owners@, method@, 0) == owner_of(owners@, method@, i as int),
        decreases owners@.len() - i,
    {
        let name = chars_of(owners[i].method.as_str());
        if same_chars(&name, method) {
            return Some(i);
        }
        i += 1;
    }
    None
}

/// Names the `Self` type variables of one span after their classes.
fn name_self_span(owners: &Vec<SelfOwner>, s: &[char]) -> (out: Vec<char>)
    ensures
        out@ == self_form(owners@, s@, 0),
{
    let prefix: [char; 5] = ['S', 'e', 'l', 'f', '@'];
    assert(prefix@ == self_prefix());
    let mut out: Vec<char> = Vec::new();
    let n: usize = s.len();
    let mut i: usize = 0;
    while i < n
        invariant
            i <= n,
            n == s@.len(),
            prefix@ == self_prefix(),
            out@ + self_form(owners@, s@, i as int) == self_form(owners@, s@, 0),
        decreases n - i,
    {
        let ghost before = out@;
        let ghost at = i as int;
        let ghost rest = self_form(owners@, s@, at);
        let mut renamed = false;
        if is_at(s, prefix.as_slice(), i) && (i == 0 || !is_name_char(s[i - 1])) {
            let mut end: usize = i + 5;
            while end < n && is_name_char(s[end])
                invariant
                    i + 5 <= end <= n,
                    n == s@.len(),
                    name_end(s@, i + 5) == name_end(s@, end as int),
                decreases n - end,
            {
                end += 1;
            }
            let mut name: Vec<char> = Vec::new();
            push_range(&mut name, s, i + 5, end);
            if let Some(k) = find_owner(owners, &name) {
                push_range(&mut out, prefix.as_slice(), 0, 5);
                assert(prefix@.subrange(0, 5) == self_prefix());
                push_text(&mut out, owners[k].class.as_str());
                i = end;
                renamed = true;
                assert(out@ + self_form(owners@, s@, i as int) == before + rest);
            }
        }
        if !renamed {
            out.push(s[i]);
            i += 1;
            assert(out@ + self_form(owners@, s@, i as int) == before + rest);
        }
    }
    out
}

/// Names each `Self` type variable after its class (`Self@K`), where the display names the
/// method that binds it.
pub fn name_self_typevars(text: &str, owners: &Vec<SelfOwner>) -> (out: String)
    ensures
        out@ == class_named(owners@, text@),
{
    let rewrite = |span: &[char]| -> (r: Vec<char>)
        ensures
            r@ == self_form(owners@, span@, 0),
        { name_self_span(owners, span) };
    let out = rewrite_outside_quotes(text, rewrite);
    proof {
        let cut = segments(text@, 0);
        let parts = choose|parts: Seq<Seq<char>>|
            #[trigger] rewritten_parts(rewrite, cut, parts) && out@ == text::concat(parts);
        assert(parts == cut.map_values(|g: Segment| named_segment(owners@, g)));
    }
    out
}

// -- messages ---------------------------------------------------------------------------

/// A message with double quotes for its backticks.
pub open spec fn plain_quotes(message: Seq<char>) -> Seq<char> {
    message.map_values(|c: char| if c == '`' { '"' } else { c })
}

/// Inline code in diagnostic messages is rendered with backticks; the consumer's messages
/// quote with double quotes.
pub fn strip_markup(message: &str) -> (out: String)
    ensures
        out@ == plain_quotes(message@),
{
    let s = chars_of(message);
    let mut out = String::new();
    let mut i: usize = 0;
    while i < s.len()
        invariant
            i <= s@.len(),
            s@ == message@,
            out@ == plain_quotes(s@.take(i as int)),
        decreases s@.len() - i,
    {
        if s[i] == '`' {
            out.push('"');
        } else {
            out.push(s[i]);
        }
        i += 1;
        assert(s@.take(i as int).drop_last() == s@.take(i - 1));
    }
    assert(s@.take(i as int) == s@);
    out
}

} // verus!
