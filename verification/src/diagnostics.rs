//! Diagnostics in the form the consumer reads.

use vstd::prelude::*;
use vstd::string::*;

use crate::args;
use crate::display;
use crate::display::{name_self_typevars, normalize_type_display, strip_markup, SelfOwner};
use crate::syntax::TextRange;
use crate::text::{chars_of, push_range, push_text, same_text, string_of};
use crate::types::FileId;

verus! {

// -- what the type checker reports ------------------------------------------------------

#[derive(Debug)]
pub enum DiagnosticId {
    /// The answer to a `reveal_type` call.
    RevealedType,
    /// A lint rule, by its name.
    Lint(String),
    /// A failure of another kind, such as invalid syntax.
    Other,
}

#[derive(Clone, Copy, PartialEq, Eq, Structural, Debug)]
pub enum Severity {
    Info,
    Warning,
    Error,
    Fatal,
}

/// A place in a file, counted from zero.
#[derive(Clone, Copy, PartialEq, Eq, Structural, Debug)]
pub struct Position {
    pub line: u32,
    pub character: u32,
}

/// The range of an annotation, by byte offsets and by positions.
#[derive(Clone, Copy, PartialEq, Eq, Structural, Debug)]
pub struct Span {
    pub range: TextRange,
    pub start: Position,
    pub end: Position,
}

/// A file that is checked; one that does not stand on the file system has no path.
#[derive(Debug)]
pub struct SourceFile {
    pub id: FileId,
    pub path: Option<String>,
}

/// The primary annotation of a diagnostic.
#[derive(Debug)]
pub struct Annotation {
    pub message: Option<String>,
    pub file: Option<SourceFile>,
    pub span: Option<Span>,
}

#[derive(Debug)]
pub struct Diagnostic {
    pub id: DiagnosticId,
    /// The identifier as it is printed.
    pub id_text: String,
    pub severity: Severity,
    pub headline: String,
    pub annotation: Option<Annotation>,
}

// -- what the consumer reads ------------------------------------------------------------

#[derive(Clone, Copy, PartialEq, Eq, Structural, Debug)]
pub enum EntrySeverity {
    Error,
    Warning,
    Information,
}

impl EntrySeverity {
    pub open spec fn text(self) -> Seq<char> {
        match self {
            EntrySeverity::Error => "error"@,
            EntrySeverity::Warning => "warning"@,
            EntrySeverity::Information => "information"@,
        }
    }

    pub fn name(self) -> (name: &'static str)
        ensures
            name@ == self.text(),
    {
        match self {
            EntrySeverity::Error => "error",
            EntrySeverity::Warning => "warning",
            EntrySeverity::Information => "information",
        }
    }
}

/// A diagnostic for the consumer.
#[derive(Debug)]
pub struct Entry {
    pub file: String,
    pub severity: EntrySeverity,
    pub message: String,
    pub start: Position,
    pub end: Position,
    pub rule: Option<String>,
}

/// An entry by value.
#[verifier::ext_equal]
pub struct EntryView {
    pub file: Seq<char>,
    pub severity: EntrySeverity,
    pub message: Seq<char>,
    pub start: Position,
    pub end: Position,
    pub rule: Option<Seq<char>>,
}

impl View for Entry {
    type V = EntryView;

    open spec fn view(&self) -> EntryView {
        EntryView {
            file: self.file@,
            severity: self.severity,
            message: self.message@,
            start: self.start,
            end: self.end,
            rule: args::optional_view(self.rule),
        }
    }
}

pub open spec fn optional_entry(entry: Option<Entry>) -> Option<EntryView> {
    match entry {
        Some(entry) => Some(entry@),
        None => None,
    }
}

// -- text of a range --------------------------------------------------------------------

/// The number of bytes of a character in UTF-8.
pub open spec fn utf8_width(c: char) -> nat {
    if c as u32 <= 0x7f {
        1
    } else if c as u32 <= 0x7ff {
        2
    } else if c as u32 <= 0xffff {
        3
    } else {
        4
    }
}

/// The character that starts at a byte offset, or the length at the end of the text.
/// There is none inside a character and past the end.
pub open spec fn char_index(s: Seq<char>, offset: int) -> Option<int>
    decreases s.len(),
{
    if offset == 0 {
        Some(0)
    } else if s.len() == 0 || offset < utf8_width(s[0]) {
        None
    } else {
        match char_index(s.skip(1), offset - utf8_width(s[0])) {
            Some(index) => Some(index + 1),
            None => None,
        }
    }
}

/// The text between two byte offsets.
pub open spec fn text_between(s: Seq<char>, start: int, end: int) -> Option<Seq<char>> {
    match (char_index(s, start), char_index(s, end)) {
        (Some(from), Some(to)) => if from <= to {
            Some(s.subrange(from, to))
        } else {
            None
        },
        _ => None,
    }
}

/// Byte offsets are counted in the UTF-8 encoding: `char_index` finds a character exactly
/// where the encoding of the characters before it ends.
pub proof fn law_offsets_are_utf8(s: Seq<char>, offset: int)
    ensures
        char_index(s, offset) matches Some(index) ==> 0 <= index <= s.len()
            && vstd::utf8::encode_utf8(s.take(index)).len() == offset,
        forall|index: int|
            0 <= index <= s.len() && #[trigger] vstd::utf8::encode_utf8(s.take(index)).len()
                == offset ==> char_index(s, offset) == Some(index),
    decreases s.len(),
{
    assert(s.take(0) == Seq::<char>::empty());
    if s.len() > 0 {
        let width = utf8_width(s[0]) as int;
        vstd::utf8::char_is_scalar(s[0]);
        assert(vstd::utf8::encode_scalar(s[0] as u32).len() == width);
        law_offsets_are_utf8(s.skip(1), offset - width);
        assert forall|index: int| 0 < index <= s.len() implies (
        #[trigger] vstd::utf8::encode_utf8(s.take(index))).len() == width
            + vstd::utf8::encode_utf8(s.skip(1).take(index - 1)).len() by {
            assert(s.take(index)[0] == s[0]);
            assert(s.take(index).drop_first() == s.skip(1).take(index - 1));
        }
        if let Some(index) = char_index(s.skip(1), offset - width) {
            assert(vstd::utf8::encode_utf8(s.take(index + 1)).len() == offset);
        }
        assert forall|index: int|
            0 <= index <= s.len() && #[trigger] vstd::utf8::encode_utf8(s.take(index)).len()
                == offset implies char_index(s, offset) == Some(index) by {
            if index > 0 {
                assert(vstd::utf8::encode_utf8(s.skip(1).take(index - 1)).len() == offset - width);
            }
        }
    }
}

fn utf8_width_of(c: char) -> (width: u32)
    ensures
        width == utf8_width(c),
{
    if c <= '\u{7f}' {
        1
    } else if c <= '\u{7ff}' {
        2
    } else if c <= '\u{ffff}' {
        3
    } else {
        4
    }
}

fn find_char(s: &[char], offset: u32) -> (index: Option<usize>)
    ensures
        match index {
            Some(index) => index <= s@.len() && char_index(s@, offset as int) == Some(index as int),
            None => char_index(s@, offset as int) is None,
        },
{
    let mut rest: u32 = offset;
    let mut i: usize = 0;
    assert(s@.skip(0) == s@);
    while i < s.len()
        invariant
            i <= s@.len(),
            char_index(s@, offset as int) == match char_index(s@.skip(i as int), rest as int) {
                Some(index) => Some(index + i),
                None => None,
            },
        decreases s@.len() - i,
    {
        if rest == 0 {
            return Some(i);
        }
        let width = utf8_width_of(s[i]);
        if rest < width {
            return None;
        }
        assert(s@.skip(i as int).skip(1) == s@.skip(i + 1));
        rest -= width;
        i += 1;
    }
    if rest == 0 {
        Some(i)
    } else {
        None
    }
}

/// The text of a range; nothing where the range does not stand between two characters of
/// the source.
fn source_slice(source: &str, range: TextRange) -> (slice: Option<String>)
    ensures
        args::optional_view(slice) == text_between(source@, range.start as int, range.end as int),
{
    let s = chars_of(source);
    match (find_char(&s, range.start), find_char(&s, range.end)) {
        (Some(from), Some(to)) => if from <= to {
            let mut slice: Vec<char> = Vec::new();
            push_range(&mut slice, &s, from, to);
            Some(string_of(&slice))
        } else {
            None
        },
        _ => None,
    }
}

// -- reveals ----------------------------------------------------------------------------

/// `s` without the backticks it starts with.
pub open spec fn without_leading_ticks(s: Seq<char>) -> Seq<char>
    decreases s.len(),
{
    if s.len() > 0 && s[0] == '`' {
        without_leading_ticks(s.skip(1))
    } else {
        s
    }
}

/// `s` without the backticks it ends with.
pub open spec fn without_trailing_ticks(s: Seq<char>) -> Seq<char>
    decreases s.len(),
{
    if s.len() > 0 && s.last() == '`' {
        without_trailing_ticks(s.drop_last())
    } else {
        s
    }
}

/// `s` without the backticks around it.
pub open spec fn without_ticks(s: Seq<char>) -> Seq<char> {
    without_trailing_ticks(without_leading_ticks(s))
}

fn trim_ticks(text: &str) -> (trimmed: String)
    ensures
        trimmed@ == without_ticks(text@),
{
    let s = chars_of(text);
    let mut from: usize = 0;
    assert(s@.skip(0) == s@);
    while from < s.len() && s[from] == '`'
        invariant
            from <= s@.len(),
            without_leading_ticks(s@) == without_leading_ticks(s@.skip(from as int)),
        decreases s@.len() - from,
    {
        assert(s@.skip(from as int).skip(1) == s@.skip(from + 1));
        from += 1;
    }
    let ghost lead = s@.skip(from as int);
    assert(without_leading_ticks(s@) == lead);
    let mut to: usize = s.len();
    assert(s@.subrange(from as int, to as int) == lead);
    while to > from && s[to - 1] == '`'
        invariant
            from <= to <= s@.len(),
            without_trailing_ticks(lead) == without_trailing_ticks(
                s@.subrange(from as int, to as int),
            ),
        decreases to,
    {
        assert(s@.subrange(from as int, to as int).drop_last() == s@.subrange(
            from as int,
            to - 1,
        ));
        to -= 1;
    }
    let mut trimmed: Vec<char> = Vec::new();
    push_range(&mut trimmed, &s, from, to);
    string_of(&trimmed)
}

/// The message of a reveal, for an expression and a type.
pub open spec fn reveal_message(expr: Seq<char>, ty: Seq<char>) -> Seq<char> {
    "Type of \""@ + expr + "\" is \""@ + ty + "\""@
}

/// A reveal: where the revealing call stands (its line counted from one), and the type.
#[derive(Debug)]
pub struct Reveal {
    pub file: FileId,
    pub line: u64,
    pub text: String,
}

/// A reveal by value.
#[verifier::ext_equal]
pub struct RevealView {
    pub file: FileId,
    pub line: u64,
    pub text: Seq<char>,
}

impl View for Reveal {
    type V = RevealView;

    open spec fn view(&self) -> RevealView {
        RevealView { file: self.file, line: self.line, text: self.text@ }
    }
}

/// The type that a reveal shows, in the consumer's form, with `Self` type variables named
/// after their classes.
pub open spec fn revealed_type(message: Seq<char>, owners: Seq<SelfOwner>) -> Seq<char> {
    display::class_named(owners, display::normalized(without_ticks(message)))
}

/// The reveal that a diagnostic is.
pub open spec fn reveal_of(diagnostic: Diagnostic, owners: Seq<SelfOwner>) -> Option<RevealView> {
    match (diagnostic.id, diagnostic.annotation) {
        (
            DiagnosticId::RevealedType,
            Some(Annotation { message: Some(message), file: Some(file), span: Some(span) }),
        ) => Some(
            RevealView {
                file: file.id,
                line: (span.start.line + 1) as u64,
                text: revealed_type(message@, owners),
            },
        ),
        _ => None,
    }
}

/// The place and the type of a reveal; nothing for any other diagnostic. `owners` gives the
/// classes of the methods whose `Self` types the display names.
pub fn reveal_answer(diagnostic: &Diagnostic, owners: &Vec<SelfOwner>) -> (reveal: Option<Reveal>)
    ensures
        match reveal {
            Some(reveal) => reveal_of(*diagnostic, owners@) == Some(reveal@),
            None => reveal_of(*diagnostic, owners@) is None,
        },
{
    match (&diagnostic.id, &diagnostic.annotation) {
        (
            DiagnosticId::RevealedType,
            Some(Annotation { message: Some(message), file: Some(file), span: Some(span) }),
        ) => {
            let trimmed = trim_ticks(message.as_str());
            let normal = normalize_type_display(trimmed.as_str());
            let text = name_self_typevars(normal.as_str(), owners);
            Some(Reveal { file: file.id, line: span.start.line as u64 + 1, text })
        },
        _ => None,
    }
}

// -- conversion -------------------------------------------------------------------------

/// The consumer's name for a rule.
pub open spec fn lint_rule(name: Seq<char>) -> Option<Seq<char>> {
    if name == "unnecessary-isinstance"@ {
        Some("reportUnnecessaryIsInstance"@)
    } else if name == "unnecessary-comparison"@ {
        Some("reportUnnecessaryComparison"@)
    } else if name == "unnecessary-contains"@ {
        Some("reportUnnecessaryContains"@)
    } else if name == "redundant-cast"@ {
        Some("reportUnnecessaryCast"@)
    } else if name == "unresolved-import"@ {
        Some("reportMissingImports"@)
    } else {
        None
    }
}

/// The consumer's name for what a diagnostic is about.
pub open spec fn rule_of(id: DiagnosticId) -> Option<Seq<char>> {
    match id {
        DiagnosticId::RevealedType => Some("reveal"@),
        DiagnosticId::Lint(name) => lint_rule(name@),
        DiagnosticId::Other => None,
    }
}

pub open spec fn optional_text(text: Option<&'static str>) -> Option<Seq<char>> {
    match text {
        Some(text) => Some(text@),
        None => None,
    }
}

/// The consumer's rule name for a diagnostic, where it has one.
pub fn pyright_rule(id: &DiagnosticId) -> (rule: Option<&'static str>)
    ensures
        optional_text(rule) == rule_of(*id),
{
    match id {
        DiagnosticId::RevealedType => Some("reveal"),
        DiagnosticId::Lint(name) => {
            let name = name.as_str();
            if same_text(name, "unnecessary-isinstance") {
                Some("reportUnnecessaryIsInstance")
            } else if same_text(name, "unnecessary-comparison") {
                Some("reportUnnecessaryComparison")
            } else if same_text(name, "unnecessary-contains") {
                Some("reportUnnecessaryContains")
            } else if same_text(name, "redundant-cast") {
                Some("reportUnnecessaryCast")
            } else if same_text(name, "unresolved-import") {
                Some("reportMissingImports")
            } else {
                None
            }
        },
        DiagnosticId::Other => None,
    }
}

/// Whether a severity is an error.
pub open spec fn at_least_error(severity: Severity) -> bool {
    severity is Error || severity is Fatal
}

/// The file and the span that a diagnostic is reported at.
pub open spec fn place(diagnostic: Diagnostic) -> Option<(Seq<char>, Span)> {
    match diagnostic.annotation {
        Some(
            Annotation { file: Some(SourceFile { path: Some(path), .. }), span: Some(span), .. },
        ) => Some((path@, span)),
        _ => None,
    }
}

/// The entry of a diagnostic that is no reveal: a warning under the consumer's rule name;
/// without such a name only an error passes, under its own identifier.
pub open spec fn lint_entry(diagnostic: Diagnostic) -> Option<EntryView> {
    match place(diagnostic) {
        None => None,
        Some((file, span)) => {
            let message = display::plain_quotes(diagnostic.headline@);
            match rule_of(diagnostic.id) {
                Some(rule) => Some(
                    EntryView {
                        file,
                        severity: EntrySeverity::Warning,
                        message,
                        start: span.start,
                        end: span.end,
                        rule: Some(rule),
                    },
                ),
                None => if at_least_error(diagnostic.severity) {
                    Some(
                        EntryView {
                            file,
                            severity: EntrySeverity::Error,
                            message,
                            start: span.start,
                            end: span.end,
                            rule: Some(diagnostic.id_text@),
                        },
                    )
                } else {
                    None
                },
            }
        },
    }
}

/// The entry of a reveal: information without a rule.
pub open spec fn reveal_entry(diagnostic: Diagnostic, source: Seq<char>) -> Option<EntryView> {
    match (place(diagnostic), diagnostic.annotation) {
        (Some((file, span)), Some(Annotation { message: Some(message), .. })) => {
            let expr = match text_between(source, span.range.start as int, span.range.end as int) {
                Some(expr) => expr,
                None => "_"@,
            };
            Some(
                EntryView {
                    file,
                    severity: EntrySeverity::Information,
                    message: reveal_message(expr, display::normalized(without_ticks(message@))),
                    start: span.start,
                    end: span.end,
                    rule: None,
                },
            )
        },
        _ => None,
    }
}

/// The entry of a diagnostic in a file with the given source.
pub open spec fn converted(diagnostic: Diagnostic, source: Seq<char>) -> Option<EntryView> {
    if diagnostic.id is RevealedType {
        reveal_entry(diagnostic, source)
    } else {
        lint_entry(diagnostic)
    }
}

/// Converts a diagnostic that is no reveal.
pub(crate) fn convert_lint(diagnostic: &Diagnostic) -> (entry: Option<Entry>)
    ensures
        optional_entry(entry) == lint_entry(*diagnostic),
{
    match &diagnostic.annotation {
        Some(
            Annotation { file: Some(SourceFile { path: Some(path), .. }), span: Some(span), .. },
        ) => {
            let (severity, rule) = match pyright_rule(&diagnostic.id) {
                Some(rule) => (EntrySeverity::Warning, rule.to_owned()),
                None => match diagnostic.severity {
                    Severity::Error | Severity::Fatal => (
                        EntrySeverity::Error,
                        diagnostic.id_text.clone(),
                    ),
                    _ => {
                        return None;
                    },
                },
            };
            Some(
                Entry {
                    file: path.clone(),
                    severity,
                    message: strip_markup(diagnostic.headline.as_str()),
                    start: span.start,
                    end: span.end,
                    rule: Some(rule),
                },
            )
        },
        _ => None,
    }
}

/// Converts a reveal.
fn convert_reveal(diagnostic: &Diagnostic, source: &str) -> (entry: Option<Entry>)
    ensures
        optional_entry(entry) == reveal_entry(*diagnostic, source@),
{
    match &diagnostic.annotation {
        Some(
            Annotation {
                file: Some(SourceFile { path: Some(path), .. }),
                span: Some(span),
                message: Some(message),
            },
        ) => {
            let trimmed = trim_ticks(message.as_str());
            let ty = normalize_type_display(trimmed.as_str());
            let expr = match source_slice(source, span.range) {
                Some(expr) => expr,
                None => "_".to_owned(),
            };
            let mut text: Vec<char> = Vec::new();
            push_text(&mut text, "Type of \"");
            push_text(&mut text, expr.as_str());
            push_text(&mut text, "\" is \"");
            push_text(&mut text, ty.as_str());
            push_text(&mut text, "\"");
            let message = string_of(&text);
            assert(message@ =~= reveal_message(expr@, ty@));
            Some(
                Entry {
                    file: path.clone(),
                    severity: EntrySeverity::Information,
                    message,
                    start: span.start,
                    end: span.end,
                    rule: None,
                },
            )
        },
        _ => None,
    }
}

/// Converts a diagnostic for the consumer. Rules that the consumer does not know pass at
/// error severity only: it looks for new errors of any kind.
pub fn convert(diagnostic: &Diagnostic, source: &str) -> (entry: Option<Entry>)
    ensures
        optional_entry(entry) == converted(*diagnostic, source@),
{
    match diagnostic.id {
        DiagnosticId::RevealedType => convert_reveal(diagnostic, source),
        _ => convert_lint(diagnostic),
    }
}

// -- identity ---------------------------------------------------------------------------

/// What makes an entry the same as another: its file, its line and its rule.
#[derive(Debug)]
pub struct EntryKey {
    pub file: String,
    pub line: u32,
    pub rule: String,
}

/// A key by value.
#[verifier::ext_equal]
pub struct EntryKeyView {
    pub file: Seq<char>,
    pub line: u32,
    pub rule: Seq<char>,
}

impl View for EntryKey {
    type V = EntryKeyView;

    open spec fn view(&self) -> EntryKeyView {
        EntryKeyView { file: self.file@, line: self.line, rule: self.rule@ }
    }
}

/// The key of an entry; an entry without a rule has an empty one.
pub open spec fn key_of(entry: EntryView) -> EntryKeyView {
    EntryKeyView {
        file: entry.file,
        line: entry.start.line,
        rule: match entry.rule {
            Some(rule) => rule,
            None => Seq::empty(),
        },
    }
}

/// The identity of an entry.
pub fn entry_key(entry: &Entry) -> (key: EntryKey)
    ensures
        key@ == key_of(entry@),
{
    let rule = match &entry.rule {
        Some(rule) => rule.clone(),
        None => String::new(),
    };
    EntryKey { file: entry.file.clone(), line: entry.start.line, rule }
}

impl EntryKey {
    /// Whether two keys are the same.
    pub fn same(&self, other: &EntryKey) -> (same: bool)
        ensures
            same == (self@ == other@),
    {
        self.line == other.line && self.file == other.file && self.rule == other.rule
    }
}

// -- reports ----------------------------------------------------------------------------

/// The entries by value.
pub open spec fn entries_view(entries: Seq<Entry>) -> Seq<EntryView> {
    entries.map_values(|entry: Entry| entry@)
}

/// The text of a file; one that was not read is empty.
pub open spec fn source_of(sources: Seq<String>, file: FileId) -> Seq<char> {
    if file.0 < sources.len() {
        sources[file.0 as int]@
    } else {
        Seq::empty()
    }
}

/// The text of the file that a diagnostic is reported in.
pub open spec fn source_for(diagnostic: Diagnostic, sources: Seq<String>) -> Seq<char> {
    match diagnostic.annotation {
        Some(Annotation { file: Some(file), .. }) => source_of(sources, file.id),
        _ => Seq::empty(),
    }
}

/// The entries of the diagnostics, in order.
pub open spec fn report_of(diagnostics: Seq<Diagnostic>, sources: Seq<String>) -> Seq<EntryView>
    decreases diagnostics.len(),
{
    if diagnostics.len() == 0 {
        Seq::empty()
    } else {
        let before = report_of(diagnostics.drop_last(), sources);
        match converted(diagnostics.last(), source_for(diagnostics.last(), sources)) {
            Some(entry) => before.push(entry),
            None => before,
        }
    }
}

/// What one check prints.
#[derive(Debug)]
pub struct CheckReport {
    pub version: &'static str,
    pub entries: Vec<Entry>,
    pub error_count: usize,
    pub warning_count: usize,
    pub information_count: usize,
}

/// The report of a check; `sources` are the texts of the files, by their index. Every
/// entry counts as a warning in the summary.
pub fn check_report(diagnostics: &Vec<Diagnostic>, sources: &Vec<String>) -> (report: CheckReport)
    ensures
        report.version@ == "1.1.412-ty-unnecessary"@,
        entries_view(report.entries@) == report_of(diagnostics@, sources@),
        report.error_count == 0,
        report.warning_count == report.entries@.len(),
        report.information_count == 0,
{
    let mut entries: Vec<Entry> = Vec::new();
    let mut i: usize = 0;
    assert(diagnostics@.take(0) == Seq::<Diagnostic>::empty());
    while i < diagnostics.len()
        invariant
            i <= diagnostics@.len(),
            entries_view(entries@) == report_of(diagnostics@.take(i as int), sources@),
        decreases diagnostics@.len() - i,
    {
        let diagnostic = &diagnostics[i];
        proof {
            assert(diagnostics@.take(i + 1).drop_last() == diagnostics@.take(i as int));
            reveal_strlit("");
        }
        let source: &str = match &diagnostic.annotation {
            Some(Annotation { file: Some(file), .. }) => if file.id.0 < sources.len() {
                sources[file.id.0].as_str()
            } else {
                ""
            },
            _ => "",
        };
        assert(source@ =~= source_for(*diagnostic, sources@));
        let ghost before = entries@;
        if let Some(entry) = convert(diagnostic, source) {
            entries.push(entry);
            assert(entries_view(entries@) =~= entries_view(before).push(entry@));
        }
        i += 1;
    }
    assert(diagnostics@.take(i as int) == diagnostics@);
    let warning_count = entries.len();
    CheckReport {
        version: "1.1.412-ty-unnecessary",
        entries,
        error_count: 0,
        warning_count,
        information_count: 0,
    }
}

} // verus!
