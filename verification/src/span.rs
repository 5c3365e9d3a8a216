//! The type of the expression at a span of a file.

use vstd::prelude::*;

use crate::args;
use crate::display;
use crate::display::{name_self_typevars, normalize_type_display, SelfOwner};
use crate::inferred_return;
use crate::inferred_return::revealed_display;
use crate::syntax::{Node, NodeKind, TextRange};
use crate::types;
use crate::types::{Query, QueryView, TypeStore};

verus! {

/// Where the lines of a file start, and how long its text is, in bytes.
#[derive(Debug)]
pub struct Lines {
    pub starts: Vec<u32>,
    pub text_len: u32,
}

/// The range of the bytes `col_start..col_end` of a line, which is counted from one. There
/// is none for a line that the file does not have, nor for columns that run past the end
/// of the text or backwards.
pub open spec fn range_at(lines: Lines, line: usize, col_start: usize, col_end: usize) -> Option<
    TextRange,
> {
    if line == 0 || line > lines.starts@.len() {
        None
    } else {
        let base = lines.starts@[line - 1];
        if col_start <= col_end && base + col_end <= lines.text_len {
            Some(TextRange { start: (base + col_start) as u32, end: (base + col_end) as u32 })
        } else {
            None
        }
    }
}

/// The range of a span.
pub fn span_range(lines: &Lines, line: usize, col_start: usize, col_end: usize) -> (range: Option<
    TextRange,
>)
    ensures
        range == range_at(*lines, line, col_start, col_end),
{
    if line == 0 || line > lines.starts.len() {
        return None;
    }
    let base = lines.starts[line - 1];
    if col_start > col_end || base > lines.text_len {
        return None;
    }
    let room: u32 = lines.text_len - base;
    if col_end as u64 > room as u64 {
        return None;
    }
    Some(TextRange { start: base + col_start as u32, end: base + col_end as u32 })
}

/// A place in a file: its line, counted from one, and the bytes before it in the line.
#[derive(Clone, Copy, PartialEq, Eq, Structural, Debug)]
pub struct BytePlace {
    pub line: usize,
    pub col: u32,
}

/// How many of the lines from `from` on start at or before an offset.
pub open spec fn lines_until(starts: Seq<u32>, offset: u32, from: int) -> int
    decreases starts.len() - from,
{
    if from < 0 || from >= starts.len() || starts[from] > offset {
        0
    } else {
        1 + lines_until(starts, offset, from + 1)
    }
}

/// The place of an offset; an offset before the first line has none.
pub open spec fn place_at(lines: Lines, offset: u32) -> Option<BytePlace> {
    let line = lines_until(lines.starts@, offset, 0);
    if line == 0 {
        None
    } else {
        Some(
            BytePlace {
                line: line as usize,
                col: (offset - lines.starts@[line - 1]) as u32,
            },
        )
    }
}

/// The place of an offset in a file.
pub fn byte_place(lines: &Lines, offset: u32) -> (place: Option<BytePlace>)
    ensures
        place == place_at(*lines, offset),
{
    let starts = &lines.starts;
    let mut line: usize = 0;
    while line < starts.len() && starts[line] <= offset
        invariant
            line <= starts@.len(),
            lines_until(starts@, offset, 0) == line + lines_until(starts@, offset, line as int),
            line > 0 ==> starts@[line - 1] <= offset,
        decreases starts@.len() - line,
    {
        line += 1;
    }
    if line == 0 {
        None
    } else {
        Some(BytePlace { line, col: offset - starts[line - 1] })
    }
}

/// Whether a node is an expression.
pub open spec fn is_expression(kind: NodeKind) -> bool {
    match kind {
        NodeKind::Return | NodeKind::FunctionDef | NodeKind::ClassDef | NodeKind::Assert
        | NodeKind::ExprStmt | NodeKind::If | NodeKind::ElifElse { .. } | NodeKind::While
        | NodeKind::OtherStmt | NodeKind::Comprehension => false,
        _ => true,
    }
}

/// Whether a range lies inside another.
pub open spec fn covers(outer: TextRange, inner: TextRange) -> bool {
    outer.start <= inner.start && inner.end <= outer.end
}

/// The innermost expression at or below `node` on the way down to the smallest node that
/// covers the range.
pub open spec fn innermost(node: Node, range: TextRange) -> Option<Node>
    decreases node, 0nat,
{
    match innermost_of(node.children@, 0, range) {
        Some(found) => Some(found),
        None => if is_expression(node.kind) {
            Some(node)
        } else {
            None
        },
    }
}

/// The same below the first node from `from` on that covers the range.
pub open spec fn innermost_of(nodes: Seq<Node>, from: int, range: TextRange) -> Option<Node>
    decreases nodes, nodes.len() - from,
    when 0 <= from
{
    if from >= nodes.len() {
        None
    } else if covers(nodes[from].range, range) {
        innermost(nodes[from], range)
    } else {
        innermost_of(nodes, from + 1, range)
    }
}

/// The expression whose range is exactly the given one.
pub open spec fn expression_at(body: Seq<Node>, range: TextRange) -> Option<Node> {
    match innermost_of(body, 0, range) {
        Some(node) => if node.range == range {
            Some(node)
        } else {
            None
        },
        None => None,
    }
}

fn expression_kind(kind: &NodeKind) -> (answer: bool)
    ensures
        answer == is_expression(*kind),
{
    match kind {
        NodeKind::Return | NodeKind::FunctionDef | NodeKind::ClassDef | NodeKind::Assert
        | NodeKind::ExprStmt | NodeKind::If | NodeKind::ElifElse { .. } | NodeKind::While
        | NodeKind::OtherStmt | NodeKind::Comprehension => false,
        _ => true,
    }
}

fn find_innermost<'a>(node: &'a Node, range: TextRange) -> (found: Option<&'a Node>)
    ensures
        match found {
            Some(found) => innermost(*node, range) == Some(*found),
            None => innermost(*node, range) is None,
        },
    decreases *node, 1nat,
{
    match find_innermost_of(&node.children, range) {
        Some(found) => Some(found),
        None => if expression_kind(&node.kind) {
            Some(node)
        } else {
            None
        },
    }
}

fn find_innermost_of<'a>(nodes: &'a Vec<Node>, range: TextRange) -> (found: Option<&'a Node>)
    ensures
        match found {
            Some(found) => innermost_of(nodes@, 0, range) == Some(*found),
            None => innermost_of(nodes@, 0, range) is None,
        },
    decreases *nodes, 0nat,
{
    let mut i: usize = 0;
    while i < nodes.len()
        invariant
            i <= nodes@.len(),
            innermost_of(nodes@, 0, range) == innermost_of(nodes@, i as int, range),
        decreases nodes@.len() - i,
    {
        let own = nodes[i].range;
        if own.start <= range.start && range.end <= own.end {
            return find_innermost(&nodes[i], range);
        }
        i += 1;
    }
    None
}

/// Searches a module for the expression at exactly a range.
pub fn find_expression<'a>(body: &'a Vec<Node>, range: TextRange) -> (found: Option<&'a Node>)
    ensures
        match found {
            Some(found) => expression_at(body@, range) == Some(*found),
            None => expression_at(body@, range) is None,
        },
{
    match find_innermost_of(body, range) {
        Some(node) => if node.range == range {
            Some(node)
        } else {
            None
        },
        None => None,
    }
}

/// The display of a revealed type for the consumer.
pub open spec fn answer_text(text: Seq<char>, owners: Seq<SelfOwner>) -> Seq<char> {
    display::class_named(owners, display::normalized(text))
}

/// The answer to a span: the revealed type of the expression at exactly that span. Without
/// such an expression, or without a type for it, there is none.
pub open spec fn span_answer(
    store: &TypeStore,
    body: Seq<Node>,
    owners: Seq<SelfOwner>,
    range: Option<TextRange>,
) -> Result<Option<Seq<char>>, QueryView> {
    match range {
        None => Ok(None),
        Some(range) => match expression_at(body, range) {
            Some(Node { ty: Some(ty), .. }) => match inferred_return::revealed(store, ty) {
                Ok(form) => Ok(Some(answer_text(types::long_display_of(store, form), owners))),
                Err(query) => Err(query),
            },
            _ => Ok(None),
        },
    }
}

/// An answer by value.
pub open spec fn answer_view(answer: Result<Option<String>, Query>) -> Result<
    Option<Seq<char>>,
    QueryView,
> {
    match answer {
        Ok(text) => Ok(args::optional_view(text)),
        Err(query) => Err(query@),
    }
}

/// The type at the bytes `col_start..col_end` of a line (counted from one), as a reveal
/// would show it. No expression at exactly that span is a miss, never a nearest-node guess.
pub fn span_type(
    store: &TypeStore,
    body: &Vec<Node>,
    lines: &Lines,
    owners: &Vec<SelfOwner>,
    line: usize,
    col_start: usize,
    col_end: usize,
) -> (answer: Result<Option<String>, Query>)
    ensures
        answer_view(answer) == span_answer(
            store,
            body@,
            owners@,
            range_at(*lines, line, col_start, col_end),
        ),
{
    let range = match span_range(lines, line, col_start, col_end) {
        Some(range) => range,
        None => {
            return Ok(None);
        },
    };
    let node = match find_expression(body, range) {
        Some(node) => node,
        None => {
            return Ok(None);
        },
    };
    match node.ty {
        None => Ok(None),
        Some(ty) => match revealed_display(store, ty) {
            Err(query) => Err(query),
            Ok(text) => {
                let normal = normalize_type_display(text.as_str());
                Ok(Some(name_self_typevars(normal.as_str(), owners)))
            },
        },
    }
}

} // verus!
