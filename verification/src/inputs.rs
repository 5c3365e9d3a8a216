//! What is read: spans, command lines, configurations and appended expressions.

use vstd::prelude::*;

use crate::args;
use crate::args::{ArgsError, ArgsView, ValueFlag};
use crate::config;
use crate::config::JsonView;
use crate::diagnostics;
use crate::display;
use crate::display::SelfOwner;
use crate::inferred_return;
use crate::outputs;
use crate::reveals;
use crate::span;
use crate::span::Lines;
use crate::syntax::{Node, NodeKind, TextRange};
use crate::text;
use crate::tree;
use crate::types::TypeStore;

verus! {

// -- spans ------------------------------------------------------------------------------

/// The statements, the handlers and the clauses are no expressions; all else is.
pub open spec fn expression(kind: NodeKind) -> bool {
    !(kind is Return || kind is FunctionDef || kind is ClassDef || kind is Assert || kind
        is ExprStmt || kind is If || kind is ElifElse || kind is While || kind is OtherStmt || kind
        is Comprehension)
}

/// One range lies in another.
pub open spec fn inside(inner: TextRange, outer: TextRange) -> bool {
    outer.start <= inner.start && inner.start <= inner.end && inner.end <= outer.end
}

/// Nodes stand one after the other, each around its children.
pub open spec fn nested(nodes: Seq<Node>) -> bool
    decreases nodes,
{
    &&& forall|i: int, j: int|
        0 <= i < j < nodes.len() ==> (#[trigger] nodes[i]).range.end <= (
        #[trigger] nodes[j]).range.start
    &&& forall|i: int|
        0 <= i < nodes.len() ==> {
            &&& (#[trigger] nodes[i]).range.start <= nodes[i].range.end
            &&& nested(nodes[i].children@)
            &&& forall|k: int|
                0 <= k < nodes[i].children@.len() ==> inside(
                    (#[trigger] nodes[i].children@[k]).range,
                    nodes[i].range,
                )
        }
}

/// What a path leads to lies in the first node of the path.
proof fn lemma_below_lies_inside(nodes: Seq<Node>, path: Seq<int>)
    requires
        nested(nodes),
        tree::node_at(nodes, path) is Some,
    ensures
        0 <= path[0] < nodes.len(),
        inside(tree::node_at(nodes, path)->Some_0.range, nodes[path[0]].range),
    decreases path.len(),
{
    if path.len() > 1 {
        lemma_below_lies_inside(nodes[path[0]].children@, path.skip(1));
        assert(path.skip(1)[0] == path[1]);
        assert(inside(nodes[path[0]].children@[path[1]].range, nodes[path[0]].range));
    }
}

/// What the search finds is an expression around the range, and a path leads to it.
proof fn lemma_found(nodes: Seq<Node>, from: int, range: TextRange) -> (path: Seq<int>)
    requires
        0 <= from,
    ensures
        span::innermost_of(nodes, from, range) matches Some(found) ==> tree::node_at(nodes, path)
            == Some(found) && expression(found.kind) && found.range.start <= range.start
            && range.end <= found.range.end,
    decreases nodes, nodes.len() - from,
{
    if from >= nodes.len() {
        Seq::empty()
    } else if span::covers(nodes[from].range, range) {
        let below = lemma_found(nodes[from].children@, 0, range);
        assert(span::innermost_of(nodes, from, range) == span::innermost(nodes[from], range));
        if span::innermost_of(nodes[from].children@, 0, range) is Some {
            let path = seq![from] + below;
            assert(path.skip(1) =~= below);
            assert(path[0] == from && path.len() > 1);
            assert(tree::node_at(nodes, path) == tree::node_at(nodes[from].children@, below));
            path
        } else {
            assert(tree::node_at(nodes, seq![from]) == Some(nodes[from]));
            seq![from]
        }
    } else {
        lemma_found(nodes, from + 1, range)
    }
}

/// The first of several disjoint nodes that covers a range is the only one.
proof fn lemma_only_cover(nodes: Seq<Node>, from: int, at: int, range: TextRange)
    requires
        nested(nodes),
        0 <= from <= at < nodes.len(),
        range.start < range.end,
        inside(range, nodes[at].range),
    ensures
        span::innermost_of(nodes, from, range) == span::innermost(nodes[at], range),
    decreases at - from,
{
    if from < at {
        assert(nodes[from].range.end <= nodes[at].range.start);
        lemma_only_cover(nodes, from + 1, at, range);
    }
}

/// Every expression of a module answers to its own span, as long as no other expression
/// with that span stands in it.
pub proof fn law_expressions_answer_to_their_span(body: Seq<Node>, path: Seq<int>)
    requires
        nested(body),
        tree::node_at(body, path) matches Some(node) && expression(node.kind) && node.range.start
            < node.range.end && forall|below: Seq<int>|
            (#[trigger] tree::node_at(node.children@, below) matches Some(inner) && expression(
                inner.kind,
            )) ==> tree::node_at(node.children@, below)->Some_0.range != node.range,
    ensures
        span::expression_at(body, tree::node_at(body, path)->Some_0.range) == tree::node_at(
            body,
            path,
        ),
    decreases path.len(),
{
    lemma_span_found(body, path);
}

proof fn lemma_span_found(nodes: Seq<Node>, path: Seq<int>)
    requires
        nested(nodes),
        tree::node_at(nodes, path) matches Some(node) && expression(node.kind) && node.range.start
            < node.range.end && forall|below: Seq<int>|
            (#[trigger] tree::node_at(node.children@, below) matches Some(inner) && expression(
                inner.kind,
            )) ==> tree::node_at(node.children@, below)->Some_0.range != node.range,
    ensures
        span::innermost_of(nodes, 0, tree::node_at(nodes, path)->Some_0.range) == tree::node_at(
            nodes,
            path,
        ),
    decreases path.len(),
{
    let node = tree::node_at(nodes, path)->Some_0;
    lemma_below_lies_inside(nodes, path);
    lemma_only_cover(nodes, 0, path[0], node.range);
    let top = nodes[path[0]];
    if path.len() > 1 {
        lemma_span_found(top.children@, path.skip(1));
    } else {
        let below = lemma_found(top.children@, 0, node.range);
        if span::innermost_of(top.children@, 0, node.range) is Some {
            lemma_below_lies_inside(top.children@, below);
            assert(inside(top.children@[below[0]].range, top.range));
            let inner = tree::node_at(top.children@, below)->Some_0;
            assert(inner.range.start == node.range.start && inner.range.end == node.range.end);
        }
    }
}

/// The answer to a span is the revealed type of the expression there, as the consumer
/// spells it; a span that is none, or no expression with a type, has no answer.
pub proof fn law_answers_to_spans(
    store: &TypeStore,
    body: Seq<Node>,
    owners: Seq<SelfOwner>,
    range: TextRange,
    node: Node,
)
    ensures
        span::span_answer(store, body, owners, None) == Ok::<
            Option<Seq<char>>,
            crate::types::QueryView,
        >(None),
        span::expression_at(body, range) is None ==> span::span_answer(
            store,
            body,
            owners,
            Some(range),
        ) == Ok::<Option<Seq<char>>, crate::types::QueryView>(None),
        span::expression_at(body, range) == Some(node) && node.ty is None ==> span::span_answer(
            store,
            body,
            owners,
            Some(range),
        ) == Ok::<Option<Seq<char>>, crate::types::QueryView>(None),
        span::expression_at(body, range) == Some(node) && node.ty is Some
            ==> match inferred_return::revealed(store, node.ty->Some_0) {
            Err(query) => span::span_answer(store, body, owners, Some(range)) == Err::<
                Option<Seq<char>>,
                crate::types::QueryView,
            >(query),
            Ok(form) => form.0 < store.types@.len() ==> span::span_answer(
                store,
                body,
                owners,
                Some(range),
            ) == Ok::<Option<Seq<char>>, crate::types::QueryView>(
                Some(
                    display::class_named(
                        owners,
                        display::normalized(store.types@[form.0 as int].long_display@),
                    ),
                ),
            ),
        },
{
}

/// A span is that many bytes of its line, in the text.
pub proof fn law_spans_are_bytes_of_a_line(
    lines: Lines,
    line: usize,
    col_start: usize,
    col_end: usize,
)
    ensures
        span::range_at(lines, line, col_start, col_end) is Some <==> 1 <= line
            <= lines.starts@.len() && col_start <= col_end && lines.starts@[line - 1] + col_end
            <= lines.text_len,
        span::range_at(lines, line, col_start, col_end) matches Some(range) ==> range.start
            == lines.starts@[line - 1] + col_start && range.end == lines.starts@[line - 1]
            + col_end,
{
}

/// An offset stands in the last line that starts at or before it.
pub proof fn law_places_are_in_the_last_line_begun(lines: Lines, offset: u32, line: int)
    requires
        lines.starts@.len() <= usize::MAX,
        forall|i: int, j: int|
            0 <= i < j < lines.starts@.len() ==> lines.starts@[i] < lines.starts@[j],
    ensures
        (1 <= line <= lines.starts@.len() && lines.starts@[line - 1] <= offset && (line
            < lines.starts@.len() ==> offset < lines.starts@[line])) ==> (span::place_at(
            lines,
            offset,
        ) matches Some(place) && place.line == line && place.col == offset - lines.starts@[line
            - 1]),
        (lines.starts@.len() == 0 || offset < lines.starts@[0]) ==> span::place_at(lines, offset)
            is None,
{
    if 1 <= line <= lines.starts@.len() && lines.starts@[line - 1] <= offset && (line
        < lines.starts@.len() ==> offset < lines.starts@[line]) {
        lemma_lines_begun(lines.starts@, offset, line, 0);
    }
}

proof fn lemma_lines_begun(starts: Seq<u32>, offset: u32, count: int, from: int)
    requires
        0 <= from <= count <= starts.len(),
        forall|i: int, j: int| 0 <= i < j < starts.len() ==> starts[i] < starts[j],
        count > 0 ==> starts[count - 1] <= offset,
        count < starts.len() ==> offset < starts[count],
    ensures
        span::lines_until(starts, offset, from) == count - from,
    decreases count - from,
{
    if from < count {
        assert(starts[from] <= starts[count - 1]);
        lemma_lines_begun(starts, offset, count, from + 1);
    }
}

// -- the command line -------------------------------------------------------------------

/// The flags that are followed by a value.
pub open spec fn wants_value(arg: Seq<char>) -> bool {
    arg == "--threads"@ || arg == "--project"@ || arg == "-p"@ || arg == "--pythonpath"@ || arg
        == "--batch"@
}

proof fn lemma_flags_differ()
    ensures
        "--threads"@.len() == 9 && "--threads"@[2] == 't',
        "--project"@.len() == 9 && "--project"@[2] == 'p',
        "-p"@.len() == 2 && "-p"@[0] == '-' && "-p"@[1] == 'p',
        "--pythonpath"@.len() == 12 && "--pythonpath"@[2] == 'p',
        "--batch"@.len() == 7 && "--batch"@[2] == 'b',
        "--serve"@.len() == 7 && "--serve"@[2] == 's',
        "--"@ == seq!['-', '-'],
{
    reveal_strlit("--threads");
    reveal_strlit("--project");
    reveal_strlit("-p");
    reveal_strlit("--pythonpath");
    reveal_strlit("--batch");
    reveal_strlit("--serve");
    reveal_strlit("--");
    assert("--"@ =~= seq!['-', '-']);
}

/// A flag at the end of the line misses its value.
pub proof fn law_flags_want_values(line: Seq<String>, read: ArgsView)
    requires
        line.len() > 0,
    ensures
        ({
            let at = line.len() - 1;
            let arg = line[at]@;
            let end = args::read_args(line, at, read);
            &&& arg == "--threads"@ ==> end == Err::<ArgsView, ArgsError>(
                ArgsError::MissingValue(ValueFlag::Threads),
            )
            &&& arg == "--project"@ || arg == "-p"@ ==> end == Err::<ArgsView, ArgsError>(
                ArgsError::MissingValue(ValueFlag::Project),
            )
            &&& arg == "--pythonpath"@ ==> end == Err::<ArgsView, ArgsError>(
                ArgsError::MissingValue(ValueFlag::PythonPath),
            )
            &&& arg == "--batch"@ ==> end == Err::<ArgsView, ArgsError>(
                ArgsError::MissingValue(ValueFlag::Batch),
            )
        }),
{
    lemma_flags_differ();
}

/// A flag with a value sets its own part of the arguments, and nothing else.
pub proof fn law_flags_set_their_values(line: Seq<String>, at: int, read: ArgsView)
    requires
        0 <= at,
        at + 1 < line.len(),
    ensures
        ({
            let arg = line[at]@;
            let value = line[at + 1]@;
            let rest = args::read_args(line, at, read);
            &&& arg == "--threads"@ && args::is_usize(value) ==> rest == args::read_args(
                line,
                at + 2,
                ArgsView {
                    threads: args::digits_value(args::unsigned_digits(value)) as usize,
                    ..read
                },
            )
            &&& arg == "--threads"@ && !args::is_usize(value) ==> rest == Err::<
                ArgsView,
                ArgsError,
            >(ArgsError::InvalidThreads)
            &&& arg == "--project"@ || arg == "-p"@ ==> rest == args::read_args(
                line,
                at + 2,
                ArgsView { project_config: Some(value), ..read },
            )
            &&& arg == "--pythonpath"@ ==> rest == args::read_args(
                line,
                at + 2,
                ArgsView { python_path: Some(value), ..read },
            )
            &&& arg == "--batch"@ ==> rest == args::read_args(
                line,
                at + 2,
                ArgsView { batch: Some(value), ..read },
            )
        }),
{
    lemma_flags_differ();
}

/// `--serve` stands alone, any other unknown word with two dashes is passed over, and a
/// word without them is the root; a line without a root is refused.
pub proof fn law_words_without_values(line: Seq<String>, at: int, read: ArgsView)
    requires
        0 <= at < line.len(),
        !wants_value(line[at]@),
    ensures
        ({
            let arg = line[at]@;
            let dashes = arg.len() >= 2 && arg[0] == '-' && arg[1] == '-';
            let rest = args::read_args(line, at, read);
            &&& arg == "--serve"@ ==> rest == args::read_args(
                line,
                at + 1,
                ArgsView { serve: true, ..read },
            )
            &&& dashes && arg != "--serve"@ ==> rest == args::read_args(line, at + 1, read)
            &&& !dashes && arg != "--serve"@ ==> rest == args::read_args(
                line,
                at + 1,
                ArgsView { root: Some(arg), ..read },
            )
        }),
        args::read_args(line, line.len() as int, read) == if read.root is Some {
            Ok::<ArgsView, ArgsError>(read)
        } else {
            Err::<ArgsView, ArgsError>(ArgsError::MissingRoot)
        },
        args::no_args().threads == 4,
        args::no_args().project_config is None,
        args::no_args().python_path is None,
        args::no_args().batch is None,
        !args::no_args().serve,
        args::no_args().root is None,
{
    lemma_flags_differ();
    let arg = line[at]@;
    if arg.len() >= 2 && arg[0] == '-' && arg[1] == '-' {
        assert(arg.subrange(0, 2) =~= seq!['-', '-']);
    }
    if text::occurs_at(arg, "--"@, 0) {
        assert(arg.subrange(0, 2)[0] == '-' && arg.subrange(0, 2)[1] == '-');
    }
}

/// Only the ten digits.
pub open spec fn decimal(s: Seq<char>) -> bool {
    forall|i: int| 0 <= i < s.len() ==> '0' <= #[trigger] s[i] && s[i] <= '9'
}

/// Numbers are decimal: a further digit is worth its value, those before it ten times
/// theirs. A plus sign before them changes nothing.
pub proof fn law_numbers_are_decimal(s: Seq<char>, c: char)
    requires
        '0' <= c <= '9',
    ensures
        args::digits_value(Seq::empty()) == 0,
        args::digits_value(s.push(c)) == 10 * args::digits_value(s) + (c as int - '0' as int),
        args::unsigned_digits(seq!['+'] + s) == s,
        s.len() > 0 && s[0] != '+' ==> args::unsigned_digits(s) == s,
        s.len() > 0 && s[0] != '+' ==> args::is_usize(s) == (decimal(s) && args::digits_value(s)
            <= usize::MAX),
        args::is_usize(seq!['+'] + s) == (s.len() > 0 && decimal(s) && args::digits_value(s)
            <= usize::MAX),
        !args::is_usize(Seq::empty()),
{
    assert(s.push(c).drop_last() =~= s);
    assert((seq!['+'] + s).skip(1) =~= s);
    if decimal(s) {
        assert forall|i: int| 0 <= i < s.len() implies args::digit(#[trigger] s[i]) by {
            assert('0' <= s[i] && s[i] <= '9');
        }
    }
    if forall|i: int| 0 <= i < s.len() ==> args::digit(#[trigger] s[i]) {
        assert forall|i: int| 0 <= i < s.len() implies '0' <= #[trigger] s[i] && s[i] <= '9' by {
            assert(args::digit(s[i]));
        }
    }
}

/// What a refused command line is answered.
pub proof fn law_refusals_name_the_flag()
    ensures
        ArgsError::MissingValue(ValueFlag::Threads).text() == "--threads requires a value"@,
        ArgsError::MissingValue(ValueFlag::Project).text() == "--project requires a value"@,
        ArgsError::MissingValue(ValueFlag::PythonPath).text() == "--pythonpath requires a value"@,
        ArgsError::MissingValue(ValueFlag::Batch).text() == "--batch requires a value"@,
        ArgsError::InvalidThreads.text() == "--threads value must be an integer"@,
        ArgsError::MissingRoot.text() == "missing root path argument"@,
{
}

// -- the configuration ------------------------------------------------------------------

/// Each key of the configuration gives its own part; what is missing, or of another kind,
/// is left out, items of a list too.
pub proof fn law_configurations_by_key(entries: Map<Seq<char>, JsonView>, items: Seq<JsonView>)
    ensures
        ({
            let read = config::config_in(JsonView::Object(entries));
            let words = tree::gathered(
                items,
                |item: JsonView|
                    match item {
                        JsonView::Text(word) => Some(word),
                        _ => None,
                    },
            );
            &&& entries.contains_key("extraPaths"@) && entries["extraPaths"@] == JsonView::Items(
                items,
            ) ==> read.extra_paths == words
            &&& entries.contains_key("exclude"@) && entries["exclude"@] == JsonView::Items(items)
                ==> read.exclude == words
            &&& !(entries.contains_key("extraPaths"@) && entries["extraPaths"@] is Items)
                ==> read.extra_paths.len() == 0
            &&& !(entries.contains_key("exclude"@) && entries["exclude"@] is Items)
                ==> read.exclude.len() == 0
            &&& entries.contains_key("pythonPath"@) && entries["pythonPath"@] is Text
                ==> read.python_path == Some(entries["pythonPath"@]->Text_0)
            &&& !(entries.contains_key("pythonPath"@) && entries["pythonPath"@] is Text)
                ==> read.python_path is None
        }),
{
    lemma_words(items);
}

proof fn lemma_words(items: Seq<JsonView>)
    ensures
        config::texts_of(items) == tree::gathered(
            items,
            |item: JsonView|
                match item {
                    JsonView::Text(word) => Some(word),
                    _ => None,
                },
        ),
    decreases items.len(),
{
    if items.len() > 0 {
        lemma_words(items.drop_last());
    }
}

/// A document that is no object configures nothing, as no document does.
pub proof fn law_nothing_configured(document: JsonView)
    requires
        !(document is Object),
    ensures
        config::config_in(document) == config::no_config(),
        config::no_config().extra_paths.len() == 0,
        config::no_config().exclude.len() == 0,
        config::no_config().python_path is None,
{
    assert(config::config_in(document) =~= config::no_config());
}

/// An empty list is not set; any other is set as it is.
pub proof fn law_empty_lists_are_not_set(list: Seq<Seq<char>>)
    ensures
        config::non_empty(list) is None <==> list.len() == 0,
        config::non_empty(list) matches Some(set) ==> set == list,
{
}

/// The rules that are switched on are those that the consumer has a name for, each once.
pub proof fn law_enabled_rules_are_the_named_ones(rule: Seq<char>)
    ensures
        config::enabled_rules().contains(rule) <==> diagnostics::lint_rule(rule) is Some,
        config::enabled_rules().len() == 5,
{
    outputs::law_names_of_rules(rule);
    let rules = config::enabled_rules();
    assert(rules[0] == "unnecessary-isinstance"@ && rules[1] == "unnecessary-comparison"@
        && rules[2] == "unnecessary-contains"@ && rules[3] == "redundant-cast"@ && rules[4]
        == "unresolved-import"@);
}

// -- appended expressions ---------------------------------------------------------------

/// Newlines add up, and only newlines count.
pub proof fn law_newlines_are_counted(a: Seq<char>, b: Seq<char>, c: char)
    ensures
        reveals::newlines(a + b) == reveals::newlines(a) + reveals::newlines(b),
        reveals::newlines(seq![c]) == if c == '\n' {
            1nat
        } else {
            0nat
        },
    decreases b.len(),
{
    reveal_with_fuel(reveals::newlines, 2);
    assert(seq![c].drop_last() =~= Seq::<char>::empty());
    if b.len() == 0 {
        assert(a + b =~= a);
    } else {
        assert((a + b).drop_last() =~= a + b.drop_last());
        law_newlines_are_counted(a, b.drop_last(), c);
    }
}

/// A text that gets reveals keeps all it has; a last line without an end gets one, and
/// nothing else is put before the first reveal.
pub proof fn law_reveals_follow_the_text(base: Seq<char>, exprs: Seq<Seq<char>>, expr: Seq<char>)
    ensures
        base.len() == 0 || base.last() == '\n' ==> reveals::with_reveals(base, Seq::empty())
            == base,
        base.len() > 0 && base.last() != '\n' ==> reveals::with_reveals(base, Seq::empty())
            == base + seq!['\n'],
        reveals::with_reveals(base, exprs.push(expr)) == reveals::with_reveals(base, exprs)
            + "reveal_type("@ + expr + ")\n"@,
        reveals::reveal_line(base, exprs.len() as int) == reveals::newlines(
            reveals::with_reveals(base, Seq::empty()),
        ) + 1 + exprs.len(),
{
    let call = |expr: Seq<char>| reveals::reveal_call(expr);
    assert(Seq::<Seq<char>>::empty().map_values(call) =~= Seq::<Seq<char>>::empty());
    assert(reveals::with_reveals(base, Seq::empty()) =~= reveals::line_ended(base));
    assert(exprs.push(expr).map_values(call) =~= exprs.map_values(call).push(
        reveals::reveal_call(expr),
    ));
    text::lemma_concat_push(exprs.map_values(call), reveals::reveal_call(expr));
    assert(reveals::with_reveals(base, exprs.push(expr)) =~= reveals::with_reveals(base, exprs)
        + "reveal_type("@ + expr + ")\n"@);
}

// -- the order of names -----------------------------------------------------------------

/// Names are ordered by their first difference; a name comes before those that it starts.
pub proof fn law_names_are_ordered(a: Seq<char>, b: Seq<char>, at: int)
    requires
        0 <= at <= a.len(),
        at <= b.len(),
        forall|i: int| 0 <= i < at ==> a[i] == b[i],
    ensures
        at < a.len() && at < b.len() && a[at] != b[at] ==> text::less(a, b) == (a[at] < b[at]),
        at == a.len() ==> text::less(a, b) == (a.len() < b.len()),
        at == b.len() ==> !text::less(a, b),
{
    lemma_same_start(a, b, 0, at);
}

proof fn lemma_same_start(a: Seq<char>, b: Seq<char>, from: int, at: int)
    requires
        0 <= from <= at <= a.len(),
        at <= b.len(),
        forall|i: int| 0 <= i < at ==> a[i] == b[i],
    ensures
        text::less_from(a, b, from) == text::less_from(a, b, at),
    decreases at - from,
{
    if from < at {
        lemma_same_start(a, b, from + 1, at);
    }
}

} // verus!
