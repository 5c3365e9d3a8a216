//! What the consumer reads, character by character and field by field.

use vstd::prelude::*;

use crate::diagnostics;
use crate::diagnostics::{
    Annotation, Diagnostic, DiagnosticId, EntrySeverity, EntryView, RevealView,
    SourceFile, Span,
};
use crate::display;
use crate::display::{Segment, SelfOwner};
use crate::text;
use crate::tree;

verus! {

// -- rules ------------------------------------------------------------------------------

proof fn lemma_rule_names()
    ensures
        "unnecessary-isinstance"@ != "unnecessary-comparison"@,
        "unnecessary-isinstance"@ != "unnecessary-contains"@,
        "unnecessary-isinstance"@ != "redundant-cast"@,
        "unnecessary-isinstance"@ != "unresolved-import"@,
        "unnecessary-comparison"@ != "unnecessary-contains"@,
        "unnecessary-comparison"@ != "redundant-cast"@,
        "unnecessary-comparison"@ != "unresolved-import"@,
        "unnecessary-contains"@ != "redundant-cast"@,
        "unnecessary-contains"@ != "unresolved-import"@,
        "redundant-cast"@ != "unresolved-import"@,
{
    reveal_strlit("unnecessary-isinstance");
    reveal_strlit("unnecessary-comparison");
    reveal_strlit("unnecessary-contains");
    reveal_strlit("redundant-cast");
    reveal_strlit("unresolved-import");
    assert("unnecessary-isinstance"@[12] == 'i' && "unnecessary-comparison"@[12] == 'c'
        && "unnecessary-contains"@[12] == 'c');
    assert("unnecessary-comparison"@[14] == 'm' && "unnecessary-contains"@[14] == 'n');
    assert("redundant-cast"@[0] == 'r');
    assert("unnecessary-isinstance"@[2] == 'n' && "unresolved-import"@[2] == 'r'
        && "unnecessary-comparison"@[2] == 'n' && "unnecessary-contains"@[2] == 'n');
    assert("unresolved-import"@[0] == 'u');
}

/// The consumer's names for the five rules; no other rule has one.
pub proof fn law_names_of_rules(name: Seq<char>)
    ensures
        diagnostics::lint_rule("unnecessary-isinstance"@) == Some("reportUnnecessaryIsInstance"@),
        diagnostics::lint_rule("unnecessary-comparison"@) == Some("reportUnnecessaryComparison"@),
        diagnostics::lint_rule("unnecessary-contains"@) == Some("reportUnnecessaryContains"@),
        diagnostics::lint_rule("redundant-cast"@) == Some("reportUnnecessaryCast"@),
        diagnostics::lint_rule("unresolved-import"@) == Some("reportMissingImports"@),
        name != "unnecessary-isinstance"@ && name != "unnecessary-comparison"@ && name
            != "unnecessary-contains"@ && name != "redundant-cast"@ && name != "unresolved-import"@
            ==> diagnostics::lint_rule(name) is None,
{
    lemma_rule_names();
}

// -- entries ----------------------------------------------------------------------------

/// Where a diagnostic stands, if it stands in a file of the file system.
pub open spec fn stands_at(diagnostic: Diagnostic, path: Seq<char>, span: Span) -> bool {
    diagnostic.annotation matches Some(annotation) && annotation.span == Some(span)
        && (annotation.file matches Some(file) && (file.path matches Some(own) && own@ == path))
}

/// A message with each backtick turned into a double quote, and nothing else changed.
pub open spec fn requoted(message: Seq<char>, out: Seq<char>) -> bool {
    &&& out.len() == message.len()
    &&& forall|i: int|
        0 <= i < out.len() ==> #[trigger] out[i] == if message[i] == '`' {
            '"'
        } else {
            message[i]
        }
}

/// A lint that the consumer knows is a warning under the consumer's name; any other
/// diagnostic that is no reveal is an error under its own name where it is at least an
/// error, and nothing otherwise. The place and the message are those of the diagnostic.
pub proof fn law_entries_of_diagnostics(
    diagnostic: Diagnostic,
    source: Seq<char>,
    path: Seq<char>,
    span: Span,
)
    requires
        stands_at(diagnostic, path, span),
        !(diagnostic.id is RevealedType),
    ensures
        ({
            let rule = match diagnostic.id {
                DiagnosticId::Lint(name) => diagnostics::lint_rule(name@),
                _ => None,
            };
            let entry = diagnostics::converted(diagnostic, source);
            &&& rule is Some ==> (entry matches Some(entry) && entry.severity
                == EntrySeverity::Warning && entry.rule == rule)
            &&& rule is None && (diagnostic.severity is Error || diagnostic.severity is Fatal) ==> (
            entry matches Some(entry) && entry.severity == EntrySeverity::Error && entry.rule
                == Some(diagnostic.id_text@))
            &&& rule is None && (diagnostic.severity is Info || diagnostic.severity is Warning)
                ==> entry is None
            &&& entry matches Some(entry) ==> entry.file == path && entry.start == span.start
                && entry.end == span.end && requoted(diagnostic.headline@, entry.message)
        }),
{
}

/// Without a place in a file of the file system there is no entry.
pub proof fn law_no_entry_without_a_place(diagnostic: Diagnostic, source: Seq<char>)
    requires
        forall|path: Seq<char>, span: Span| !#[trigger] stands_at(diagnostic, path, span),
    ensures
        diagnostics::converted(diagnostic, source) is None,
{
    if let Some(annotation) = diagnostic.annotation {
        if let (Some(file), Some(span)) = (annotation.file, annotation.span) {
            if let Some(path) = file.path {
                assert(stands_at(diagnostic, path@, span));
            }
        }
    }
}

/// The entry of a reveal is information without a rule; it quotes the text of the range, or
/// an underscore where the range is none of the source, and the normal form of the type.
pub proof fn law_entries_of_reveals(
    diagnostic: Diagnostic,
    source: Seq<char>,
    path: Seq<char>,
    span: Span,
    shown: Seq<char>,
)
    requires
        stands_at(diagnostic, path, span),
        diagnostic.id is RevealedType,
        diagnostic.annotation->Some_0.message matches Some(message) && message@ == shown,
    ensures
        ({
            let expr = match diagnostics::text_between(
                source,
                span.range.start as int,
                span.range.end as int,
            ) {
                Some(expr) => expr,
                None => "_"@,
            };
            diagnostics::converted(diagnostic, source) == Some(
                EntryView {
                    file: path,
                    severity: EntrySeverity::Information,
                    message: "Type of \""@ + expr + "\" is \""@ + display::normalized(
                        diagnostics::without_ticks(shown),
                    ) + "\""@,
                    start: span.start,
                    end: span.end,
                    rule: None,
                },
            )
        }),
{
}

/// A reveal answers at the line it stands on, counted from one, with the type in normal
/// form and its `Self` types named; nothing else is a reveal.
pub proof fn law_reveals_of_diagnostics(
    diagnostic: Diagnostic,
    owners: Seq<SelfOwner>,
    file: SourceFile,
    span: Span,
    shown: String,
)
    ensures
        !(diagnostic.id is RevealedType) ==> diagnostics::reveal_of(diagnostic, owners) is None,
        diagnostic.id is RevealedType && diagnostic.annotation == Some(
            Annotation { message: Some(shown), file: Some(file), span: Some(span) },
        ) ==> diagnostics::reveal_of(diagnostic, owners) == Some(
            RevealView {
                file: file.id,
                line: (span.start.line + 1) as u64,
                text: display::class_named(
                    owners,
                    display::normalized(diagnostics::without_ticks(shown@)),
                ),
            },
        ),
        diagnostic.id is RevealedType && (diagnostic.annotation is None
            || diagnostic.annotation->Some_0.message is None
            || diagnostic.annotation->Some_0.file is None
            || diagnostic.annotation->Some_0.span is None) ==> diagnostics::reveal_of(
            diagnostic,
            owners,
        ) is None,
{
}

/// The text between two offsets is what stands there in the UTF-8 encoding.
pub proof fn law_slices_of_the_source(before: Seq<char>, slice: Seq<char>, after: Seq<char>)
    ensures
        ({
            let start = vstd::utf8::encode_utf8(before).len() as int;
            let end = vstd::utf8::encode_utf8(before + slice).len() as int;
            diagnostics::text_between(before + slice + after, start, end) == Some(slice)
        }),
{
    let s = before + slice + after;
    let start = vstd::utf8::encode_utf8(before).len() as int;
    let end = vstd::utf8::encode_utf8(before + slice).len() as int;
    diagnostics::law_offsets_are_utf8(s, start);
    diagnostics::law_offsets_are_utf8(s, end);
    assert(s.take(before.len() as int) =~= before);
    assert(s.take((before + slice).len() as int) =~= before + slice);
    assert(diagnostics::char_index(s, start) == Some(before.len() as int));
    assert(diagnostics::char_index(s, end) == Some((before + slice).len() as int));
    assert(s.subrange(before.len() as int, (before + slice).len() as int) =~= slice);
}

/// Only the backticks around a text are taken away.
pub proof fn law_only_outer_ticks_go(lead: Seq<char>, inner: Seq<char>, trail: Seq<char>)
    requires
        forall|i: int| 0 <= i < lead.len() ==> lead[i] == '`',
        forall|i: int| 0 <= i < trail.len() ==> trail[i] == '`',
        inner.len() > 0 ==> inner[0] != '`' && inner.last() != '`',
    ensures
        inner.len() > 0 ==> diagnostics::without_ticks(lead + inner + trail) == inner,
        diagnostics::without_ticks(lead) == Seq::<char>::empty(),
{
    lemma_leading(lead, Seq::empty());
    assert(lead + Seq::<char>::empty() =~= lead);
    assert(diagnostics::without_leading_ticks(lead) =~= Seq::<char>::empty());
    if inner.len() > 0 {
        lemma_leading(lead, inner + trail);
        lemma_trailing(inner, trail);
        assert(lead + inner + trail =~= lead + (inner + trail));
        assert((inner + trail)[0] == inner[0]);
    }
}

proof fn lemma_leading(lead: Seq<char>, rest: Seq<char>)
    requires
        forall|i: int| 0 <= i < lead.len() ==> lead[i] == '`',
        rest.len() > 0 ==> rest[0] != '`',
    ensures
        diagnostics::without_leading_ticks(lead + rest) == rest,
    decreases lead.len(),
{
    if lead.len() > 0 {
        lemma_leading(lead.skip(1), rest);
        assert((lead + rest).skip(1) =~= lead.skip(1) + rest);
    } else {
        assert(lead + rest =~= rest);
    }
}

proof fn lemma_trailing(rest: Seq<char>, trail: Seq<char>)
    requires
        forall|i: int| 0 <= i < trail.len() ==> trail[i] == '`',
        rest.len() > 0 && rest.last() != '`',
    ensures
        diagnostics::without_trailing_ticks(rest + trail) == rest,
    decreases trail.len(),
{
    if trail.len() > 0 {
        lemma_trailing(rest, trail.drop_last());
        assert((rest + trail).drop_last() =~= rest + trail.drop_last());
        assert((rest + trail).last() == trail.last());
    } else {
        assert(rest + trail =~= rest);
    }
}

/// A report has the entry of each diagnostic that has one, in order.
pub proof fn law_reports_hold_every_entry(diagnostics: Seq<Diagnostic>, sources: Seq<String>)
    ensures
        diagnostics::report_of(diagnostics, sources) == tree::gathered(
            diagnostics,
            |diagnostic: Diagnostic| diagnostics::converted(diagnostic, own_source(
                diagnostic,
                sources,
            )),
        ),
    decreases diagnostics.len(),
{
    if diagnostics.len() > 0 {
        law_reports_hold_every_entry(diagnostics.drop_last(), sources);
    }
}

/// The text of the file that a diagnostic is about.
pub open spec fn own_source(diagnostic: Diagnostic, sources: Seq<String>) -> Seq<char> {
    match diagnostic.annotation {
        Some(annotation) => match annotation.file {
            Some(file) => if file.id.0 < sources.len() {
                sources[file.id.0 as int]@
            } else {
                Seq::empty()
            },
            None => Seq::empty(),
        },
        None => Seq::empty(),
    }
}

/// Two entries are the same for a world exactly where file, line and rule agree; to have no
/// rule is to have an empty one.
pub proof fn law_identity_of_entries(a: EntryView, b: EntryView)
    ensures
        a.rule is Some == b.rule is Some ==> (diagnostics::key_of(a) == diagnostics::key_of(b)
            <==> a.file == b.file && a.start.line == b.start.line && a.rule == b.rule),
        a.rule is None && b.rule is Some ==> (diagnostics::key_of(a) == diagnostics::key_of(b)
            <==> a.file == b.file && a.start.line == b.start.line && b.rule->Some_0.len() == 0),
{
    if a.rule is None && b.rule is Some && b.rule->Some_0.len() == 0 {
        assert(b.rule->Some_0 =~= Seq::<char>::empty());
    }
}

// -- string literals in displays --------------------------------------------------------

/// A backslash stands right before the position and is not escaped itself; what stands
/// before `from` does not count.
pub open spec fn escaped(s: Seq<char>, from: int, at: int) -> bool
    decreases at - from,
{
    from < at && s[at - 1] == '\\' && !escaped(s, from, at - 1)
}

/// A literal that starts before `from` ends at the first quote of its kind that is not
/// escaped.
pub proof fn law_literals_end_at_the_first_quote(s: Seq<char>, from: int, quote: char)
    requires
        0 <= from,
        quote != '\\',
    ensures
        match display::closing_quote(s, from, quote) {
            Some(close) => from <= close < s.len() && s[close] == quote && !escaped(s, from, close)
                && forall|i: int|
                from <= i < close && #[trigger] s[i] == quote ==> escaped(s, from, i),
            None => forall|i: int|
                from <= i < s.len() && #[trigger] s[i] == quote ==> escaped(s, from, i),
        },
{
    lemma_closing(s, from, from, quote);
}

proof fn lemma_closing(s: Seq<char>, base: int, from: int, quote: char)
    requires
        0 <= base <= from,
        quote != '\\',
        !escaped(s, base, from),
    ensures
        match display::closing_quote(s, from, quote) {
            Some(close) => from <= close < s.len() && s[close] == quote && !escaped(s, base, close)
                && forall|i: int|
                from <= i < close && #[trigger] s[i] == quote ==> escaped(s, base, i),
            None => forall|i: int|
                from <= i < s.len() && #[trigger] s[i] == quote ==> escaped(s, base, i),
        },
    decreases s.len() + 1 - from,
{
    if from < s.len() {
        if s[from] == '\\' {
            assert(escaped(s, base, from + 1));
            assert(!escaped(s, base, from + 2));
            lemma_closing(s, base, from + 2, quote);
        } else if s[from] != quote {
            assert(!escaped(s, base, from + 1));
            lemma_closing(s, base, from + 1, quote);
        }
    }
}

/// A display is cut at its literals: a stretch up to the first quote, the literal to the
/// quote that ends it, and so on; without a quote it is one stretch, and a literal that
/// does not end runs to the end.
pub proof fn law_displays_are_cut_at_literals(s: Seq<char>, from: int, open: int)
    requires
        0 <= from <= s.len(),
    ensures
        (forall|i: int| from <= i < s.len() ==> s[i] != '"' && s[i] != '\'') ==> display::segments(
            s,
            from,
        ) == seq![Segment { quoted: false, text: s.skip(from) }],
        (from <= open < s.len() && (s[open] == '"' || s[open] == '\'') && forall|i: int|
            from <= i < open ==> s[i] != '"' && s[i] != '\'') ==> display::segments(s, from)
            == seq![Segment { quoted: false, text: s.subrange(from, open) }] + (
        match display::closing_quote(s, open + 1, s[open]) {
            None => seq![Segment { quoted: true, text: s.skip(open) }],
            Some(close) => seq![Segment { quoted: true, text: s.subrange(open, close + 1) }]
                + display::segments(s, close + 1),
        }),
{
    display::lemma_opening_quote(s, from);
    if from <= open < s.len() && (s[open] == '"' || s[open] == '\'') && forall|i: int|
        from <= i < open ==> s[i] != '"' && s[i] != '\'' {
        assert(display::opening_quote(s, from) == Some(open));
        display::lemma_closing_quote(s, open + 1, s[open]);
        let first = Segment { quoted: false, text: s.subrange(from, open) };
        match display::closing_quote(s, open + 1, s[open]) {
            None => {
                assert(display::segments(s, from) =~= seq![first] + seq![
                    Segment { quoted: true, text: s.skip(open) },
                ]);
            },
            Some(close) => {
                let second = Segment { quoted: true, text: s.subrange(open, close + 1) };
                assert(display::segments(s, from) =~= seq![first] + (seq![second]
                    + display::segments(s, close + 1)));
            },
        }
    }
}

/// The normal form is made of the normal forms of the stretches, the literals as they are.
pub proof fn law_normal_forms_by_stretch(s: Seq<char>, owners: Seq<SelfOwner>)
    ensures
        display::normalized(s) == text::concat(
            display::segments(display::module_form(s, 0), 0).map_values(
                |g: Segment|
                    if g.quoted {
                        g.text
                    } else {
                        display::plain_form(g.text, 0)
                    },
            ),
        ),
        display::class_named(owners, s) == text::concat(
            display::segments(s, 0).map_values(
                |g: Segment|
                    if g.quoted {
                        g.text
                    } else {
                        display::self_form(owners, g.text, 0)
                    },
            ),
        ),
{
    let cut = display::segments(display::module_form(s, 0), 0);
    assert(cut.map_values(|g: Segment| display::segment_form(g)) =~= cut.map_values(
        |g: Segment|
            if g.quoted {
                g.text
            } else {
                display::plain_form(g.text, 0)
            },
    ));
    let own = display::segments(s, 0);
    assert(own.map_values(|g: Segment| display::named_segment(owners, g)) =~= own.map_values(
        |g: Segment|
            if g.quoted {
                g.text
            } else {
                display::self_form(owners, g.text, 0)
            },
    ));
}

// -- the stretches between literals -----------------------------------------------------

/// An ASCII letter or digit.
pub open spec fn letter_or_digit(c: char) -> bool {
    ('a' <= c && c <= 'z') || ('A' <= c && c <= 'Z') || ('0' <= c && c <= '9')
}

/// A character of a name.
pub open spec fn of_a_name(c: char) -> bool {
    if c as u32 <= 127 {
        letter_or_digit(c) || c == '_'
    } else {
        display::unicode_alphanumeric(c)
    }
}

/// A pattern stands at a position.
pub open spec fn stands(s: Seq<char>, pattern: Seq<char>, at: int) -> bool {
    0 <= at && at + pattern.len() <= s.len() && forall|i: int|
        0 <= i < pattern.len() ==> s[at + i] == #[trigger] pattern[i]
}

proof fn lemma_stands(s: Seq<char>, pattern: Seq<char>, at: int)
    ensures
        text::occurs_at(s, pattern, at) == stands(s, pattern, at),
{
    if stands(s, pattern, at) {
        assert(s.subrange(at, at + pattern.len()) =~= pattern);
    }
    if text::occurs_at(s, pattern, at) {
        assert forall|i: int| 0 <= i < pattern.len() implies s[at + i] == #[trigger] pattern[i] by {
            assert(s.subrange(at, at + pattern.len())[i] == pattern[i]);
        }
    }
}

proof fn lemma_names()
    ensures
        forall|c: char| #[trigger] of_a_name(c) == display::name_char(c),
        forall|c: char| #[trigger] display::name_char(c) == of_a_name(c),
{
}

/// A star behind a letter or digit goes; of `def name(`, not inside a word, only the
/// parenthesis stays; every other character stays.
pub proof fn law_what_goes_from_a_stretch(s: Seq<char>, at: int, paren: int)
    requires
        0 <= at < s.len(),
    ensures
        s[at] == '*' && at > 0 && letter_or_digit(s[at - 1]) ==> display::plain_form(s, at)
            == display::plain_form(s, at + 1),
        names_a_signature(s, at, paren) ==> display::plain_form(s, at) == display::plain_form(
            s,
            paren,
        ),
        !(s[at] == '*' && at > 0 && letter_or_digit(s[at - 1])) && (forall|p: int|
            !names_a_signature(s, at, p)) ==> display::plain_form(s, at) == seq![s[at]]
            + display::plain_form(s, at + 1),
        display::plain_form(s, s.len() as int) == Seq::<char>::empty(),
{
    lemma_names();
    lemma_stands(s, display::def_keyword(), at);
    assert(display::def_keyword() =~= seq!['d', 'e', 'f', ' ']);
    assert forall|p: int| display::named_signature(s, at, p) == names_a_signature(s, at, p) by {
        if names_a_signature(s, at, p) {
            assert forall|j: int| at + 4 <= j < p implies display::name_char(#[trigger] s[j]) by {
                assert(of_a_name(s[j]));
            }
        }
        if display::named_signature(s, at, p) {
            assert forall|j: int| at + 4 <= j < p implies of_a_name(#[trigger] s[j]) by {
                assert(display::name_char(s[j]));
            }
        }
    }
    if names_a_signature(s, at, paren) {
        assert(display::named_signature(s, at, paren));
        assert(seq!['d', 'e', 'f', ' '][0] == 'd');
        assert(s[at + 0] == 'd');
        let chosen = choose|p: int| display::named_signature(s, at, p);
        assert(display::named_signature(s, at, chosen));
        assert(!of_a_name('('));
        if paren < chosen {
            assert(display::name_char(s[paren]));
        } else if chosen < paren {
            assert(display::name_char(s[chosen]));
        }
    }
}

/// `def name(` stands at `at`, not inside a word, with its parenthesis at `paren`.
pub open spec fn names_a_signature(s: Seq<char>, at: int, paren: int) -> bool {
    &&& stands(s, seq!['d', 'e', 'f', ' '], at)
    &&& at > 0 ==> !letter_or_digit(s[at - 1])
    &&& at + 4 < paren < s.len()
    &&& s[paren] == '('
    &&& forall|i: int| at + 4 <= i < paren ==> of_a_name(#[trigger] s[i])
}

/// `<module 'name'>` becomes `Module("name")`; a start without an end, and everything else,
/// stays.
pub proof fn law_modules_are_respelled(s: Seq<char>, from: int, at: int, end: int)
    requires
        0 <= from <= s.len(),
    ensures
        (forall|i: int| from <= i ==> !stands(s, "<module '"@, i)) ==> display::module_form(s, from)
            == s.skip(from),
        from <= at && stands(s, "<module '"@, at) && (forall|i: int|
            from <= i < at ==> !stands(s, "<module '"@, i)) ==> {
            &&& at + 9 <= end && stands(s, "'>"@, end) && (forall|i: int|
                at + 9 <= i < end ==> !stands(s, "'>"@, i)) ==> display::module_form(s, from)
                == s.subrange(from, at) + "Module(\""@ + s.subrange(at + 9, end) + "\")"@
                + display::module_form(s, end + 2)
            &&& (forall|i: int| at + 9 <= i ==> !stands(s, "'>"@, i)) ==> display::module_form(
                s,
                from,
            ) == s.subrange(from, at) + "<module '"@ + display::module_form(s, at + 9)
        },
{
    let open = "<module '"@;
    let close = "'>"@;
    reveal_strlit("<module '");
    reveal_strlit("'>");
    assert forall|i: int| text::occurs_at(s, open, i) == stands(s, open, i) by {
        lemma_stands(s, open, i);
    }
    assert forall|i: int| text::occurs_at(s, close, i) == stands(s, close, i) by {
        lemma_stands(s, close, i);
    }
    text::lemma_first_occurrence(s, open, from);
    if let Some(first) = text::first_occurrence(s, open, from) {
        assert(stands(s, open, first));
        text::lemma_first_occurrence(s, close, first + 9);
        if from <= at && stands(s, open, at) && (forall|i: int|
            from <= i < at ==> !stands(s, open, i)) {
            assert(text::occurs_at(s, open, at));
            assert(first == at);
            if let Some(last) = text::first_occurrence(s, close, at + 9) {
                assert(stands(s, close, last));
                if at + 9 <= end && stands(s, close, end) && (forall|i: int|
                    at + 9 <= i < end ==> !stands(s, close, i)) {
                    assert(text::occurs_at(s, close, end));
                    assert(last == end);
                }
            } else {
                if at + 9 <= end && stands(s, close, end) {
                    assert(text::occurs_at(s, close, end));
                }
            }
        }
    } else {
        if from <= at && stands(s, open, at) {
            assert(text::occurs_at(s, open, at));
        }
    }
}

/// The first owner of a method gives its class.
pub proof fn law_owners_of_methods(owners: Seq<SelfOwner>, method: Seq<char>, at: int)
    ensures
        (0 <= at < owners.len() && owners[at].method@ == method && forall|i: int|
            0 <= i < at ==> (#[trigger] owners[i]).method@ != method) ==> display::owner_of(
            owners,
            method,
            0,
        ) == Some(owners[at].class@),
        (forall|i: int| 0 <= i < owners.len() ==> (#[trigger] owners[i]).method@ != method)
            ==> display::owner_of(owners, method, 0) is None,
{
    lemma_owner(owners, method, 0, at);
}

proof fn lemma_owner(owners: Seq<SelfOwner>, method: Seq<char>, from: int, at: int)
    requires
        0 <= from,
    ensures
        (from <= at < owners.len() && owners[at].method@ == method && forall|i: int|
            from <= i < at ==> (#[trigger] owners[i]).method@ != method) ==> display::owner_of(
            owners,
            method,
            from,
        ) == Some(owners[at].class@),
        (forall|i: int| from <= i < owners.len() ==> (#[trigger] owners[i]).method@ != method)
            ==> display::owner_of(owners, method, from) is None,
    decreases owners.len() - from,
{
    if from < owners.len() {
        lemma_owner(owners, method, from + 1, at);
    }
}

/// `Self@method`, not inside a word, becomes `Self@Class` where the method has an owner;
/// every other character stays.
pub proof fn law_self_types_are_named(owners: Seq<SelfOwner>, s: Seq<char>, at: int, end: int)
    requires
        0 <= at < s.len(),
    ensures
        ({
            let here = stands(s, seq!['S', 'e', 'l', 'f', '@'], at) && (at > 0 ==> !of_a_name(
                s[at - 1],
            ));
            let name_ends = at + 5 <= end <= s.len() && (forall|i: int|
                at + 5 <= i < end ==> of_a_name(#[trigger] s[i])) && (end < s.len() ==> !of_a_name(
                s[end],
            ));
            &&& here && name_ends ==> match display::owner_of(
                owners,
                s.subrange(at + 5, end),
                0,
            ) {
                Some(class) => display::self_form(owners, s, at) == seq![
                    'S',
                    'e',
                    'l',
                    'f',
                    '@',
                ] + class + display::self_form(owners, s, end),
                None => display::self_form(owners, s, at) == seq![s[at]] + display::self_form(
                    owners,
                    s,
                    at + 1,
                ),
            }
            &&& !here ==> display::self_form(owners, s, at) == seq![s[at]] + display::self_form(
                owners,
                s,
                at + 1,
            )
        }),
        display::self_form(owners, s, s.len() as int) == Seq::<char>::empty(),
{
    lemma_names();
    lemma_stands(s, seq!['S', 'e', 'l', 'f', '@'], at);
    if stands(s, seq!['S', 'e', 'l', 'f', '@'], at) {
        if at + 5 <= end <= s.len() && (forall|i: int|
            at + 5 <= i < end ==> of_a_name(#[trigger] s[i])) && (end < s.len() ==> !of_a_name(
            s[end],
        )) {
            lemma_name_ends(s, at + 5, end);
        }
    }
}

proof fn lemma_name_ends(s: Seq<char>, from: int, end: int)
    requires
        0 <= from <= end <= s.len(),
        forall|i: int| from <= i < end ==> of_a_name(#[trigger] s[i]),
        end < s.len() ==> !of_a_name(s[end]),
    ensures
        display::name_end(s, from) == end,
    decreases end - from,
{
    lemma_names();
    if from < end {
        assert(of_a_name(s[from]));
        lemma_name_ends(s, from + 1, end);
    }
}

/// The parts of a text are joined in order, without anything between them.
pub proof fn law_texts_are_joined(parts: Seq<Seq<char>>, last: Seq<char>)
    ensures
        text::concat(Seq::empty()) == Seq::<char>::empty(),
        text::concat(parts.push(last)) == text::concat(parts) + last,
{
    assert(parts.push(last).drop_last() =~= parts);
}

} // verus!
