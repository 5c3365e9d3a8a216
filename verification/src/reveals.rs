//! Expression queries: `reveal_type` calls appended to a file.

use vstd::prelude::*;

use crate::text;
use crate::text::{chars_of, push_text, string_of};

verus! {

/// The number of newlines in a text.
pub open spec fn newlines(s: Seq<char>) -> nat
    decreases s.len(),
{
    if s.len() == 0 {
        0
    } else {
        newlines(s.drop_last()) + if s.last() == '\n' {
            1nat
        } else {
            0nat
        }
    }
}

/// A text that ends its last line.
pub open spec fn line_ended(base: Seq<char>) -> Seq<char> {
    if base.len() == 0 || base.last() == '\n' {
        base
    } else {
        base.push('\n')
    }
}

/// The line that reveals an expression.
pub open spec fn reveal_call(expr: Seq<char>) -> Seq<char> {
    "reveal_type("@ + expr + ")\n"@
}

/// A text with a line for each expression at its end.
pub open spec fn with_reveals(base: Seq<char>, exprs: Seq<Seq<char>>) -> Seq<char> {
    line_ended(base) + text::concat(exprs.map_values(|expr: Seq<char>| reveal_call(expr)))
}

/// The line, counted from one, that reveals the expression at `index`.
pub open spec fn reveal_line(base: Seq<char>, index: int) -> int {
    newlines(line_ended(base)) + 1 + index
}

proof fn lemma_newlines_add(a: Seq<char>, b: Seq<char>)
    ensures
        newlines(a + b) == newlines(a) + newlines(b),
    decreases b.len(),
{
    if b.len() == 0 {
        assert(a + b == a);
    } else {
        assert((a + b).drop_last() == a + b.drop_last());
        lemma_newlines_add(a, b.drop_last());
    }
}

proof fn lemma_newlines_bound(s: Seq<char>)
    ensures
        newlines(s) <= s.len(),
    decreases s.len(),
{
    if s.len() > 0 {
        lemma_newlines_bound(s.drop_last());
    }
}

/// A line without newlines of its own adds one newline.
proof fn lemma_reveal_call(expr: Seq<char>)
    ensures
        newlines(reveal_call(expr)) == newlines(expr) + 1,
{
    reveal_strlit("reveal_type(");
    reveal_strlit(")\n");
    lemma_newlines_add("reveal_type("@ + expr, ")\n"@);
    lemma_newlines_add("reveal_type("@, expr);
    reveal_with_fuel(newlines, 13);
    assert(")\n"@.drop_last() == seq![')']);
    assert(newlines(seq![')']) == 0);
    assert(newlines(")\n"@) == 1);
    let open = "reveal_type("@;
    assert forall|n: int| 0 <= n <= open.len() implies newlines(#[trigger] open.take(n)) == 0 by {
        lemma_no_newlines(open.take(n));
    }
    assert(open.take(open.len() as int) == open);
}

proof fn lemma_no_newlines(s: Seq<char>)
    requires
        forall|i: int| 0 <= i < s.len() ==> s[i] != '\n',
    ensures
        newlines(s) == 0,
    decreases s.len(),
{
    if s.len() > 0 {
        lemma_no_newlines(s.drop_last());
    }
}

/// The reveal of each expression stands on the line that is reported for it, as long as
/// no expression holds a line break: the text before it has one newline less.
pub proof fn law_reveal_lines(base: Seq<char>, exprs: Seq<Seq<char>>, index: int)
    requires
        0 <= index < exprs.len(),
        forall|i: int, j: int|
            0 <= i < exprs.len() && 0 <= j < exprs[i].len() ==> #[trigger] exprs[i][j] != '\n',
    ensures
        newlines(with_reveals(base, exprs.take(index))) + 1 == reveal_line(base, index),
        with_reveals(base, exprs.take(index + 1)) == with_reveals(base, exprs.take(index))
            + reveal_call(exprs[index]),
    decreases index,
{
    let call = |expr: Seq<char>| reveal_call(expr);
    assert(exprs.take(index + 1).map_values(call) == exprs.take(index).map_values(call).push(
        reveal_call(exprs[index]),
    ));
    text::lemma_concat_push(exprs.take(index).map_values(call), reveal_call(exprs[index]));
    assert(with_reveals(base, exprs.take(index + 1)) =~= with_reveals(base, exprs.take(index))
        + reveal_call(exprs[index]));
    if index == 0 {
        assert(exprs.take(0).map_values(call) == Seq::<Seq<char>>::empty());
        assert(with_reveals(base, exprs.take(0)) =~= line_ended(base));
    } else {
        law_reveal_lines(base, exprs, index - 1);
        let last = exprs[index - 1];
        lemma_newlines_add(with_reveals(base, exprs.take(index - 1)), reveal_call(last));
        lemma_reveal_call(last);
        assert forall|j: int| 0 <= j < last.len() implies last[j] != '\n' by {
            assert(exprs[index - 1][j] != '\n');
        }
        lemma_no_newlines(last);
    }
}

/// A text with reveals, and the number of lines before them.
#[derive(Debug)]
pub struct Appended {
    pub content: String,
    pub lines_before: u64,
}

/// Appends a `reveal_type` call for each expression, each on a line of its own.
pub fn append_reveals(base: &str, exprs: &Vec<&String>) -> (appended: Appended)
    ensures
        appended.content@ == with_reveals(base@, exprs@.map_values(|expr: &String| expr@)),
        appended.lines_before + 1 == reveal_line(base@, 0),
        appended.lines_before + exprs@.len() <= u64::MAX,
{
    let mut content = chars_of(base);
    if content.len() > 0 && content[content.len() - 1] != '\n' {
        content.push('\n');
    }
    assert(content@ == line_ended(base@));
    let mut lines: u64 = 0;
    let mut i: usize = 0;
    while i < content.len()
        invariant
            i <= content@.len(),
            lines == newlines(content@.take(i as int)),
            lines <= i,
        decreases content@.len() - i,
    {
        assert(content@.take(i + 1).drop_last() == content@.take(i as int));
        if content[i] == '\n' {
            lines += 1;
        }
        i += 1;
    }
    assert(content@.take(i as int) == content@);
    let ghost ended = content@;
    let ghost texts = exprs@.map_values(|expr: &String| expr@);
    let ghost call = |expr: Seq<char>| reveal_call(expr);
    let mut k: usize = 0;
    assert(texts.take(0).map_values(call) == Seq::<Seq<char>>::empty());
    while k < exprs.len()
        invariant
            k <= exprs@.len(),
            texts == exprs@.map_values(|expr: &String| expr@),
            call == (|expr: Seq<char>| reveal_call(expr)),
            content@ == ended + text::concat(texts.take(k as int).map_values(call)),
            ended.len() + k <= content@.len(),
        decreases exprs@.len() - k,
    {
        let ghost before = content@;
        push_text(&mut content, "reveal_type(");
        push_text(&mut content, exprs[k].as_str());
        push_text(&mut content, ")\n");
        proof {
            reveal_strlit(")\n");
            assert(content@ =~= before + reveal_call(texts[k as int]));
            assert(texts.take(k + 1).map_values(call) == texts.take(k as int).map_values(
                call,
            ).push(reveal_call(texts[k as int])));
            text::lemma_concat_push(
                texts.take(k as int).map_values(call),
                reveal_call(texts[k as int]),
            );
        }
        k += 1;
    }
    let length: usize = content.len();
    proof {
        assert(texts.take(k as int) == texts);
        lemma_newlines_bound(ended);
        assert(ended.len() + k <= length);
    }
    Appended { content: string_of(&content), lines_before: lines }
}

} // verus!
