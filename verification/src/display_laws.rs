//! What holds of the displays as the consumer reads them.

use vstd::prelude::*;

use crate::display;
use crate::display::Segment;
use crate::text;

verus! {

/// Cutting a display at its string literals loses nothing.
pub proof fn law_segments_cover(s: Seq<char>, from: int)
    requires
        0 <= from <= s.len(),
    ensures
        text::concat(display::segments(s, from).map_values(|g: Segment| g.text)) == s.skip(from),
    decreases s.len() - from,
{
    let own = |g: Segment| g.text;
    let all = display::segments(s, from).map_values(own);
    display::lemma_opening_quote(s, from);
    match display::opening_quote(s, from) {
        None => {
            lemma_concat_one(s.skip(from));
            assert(all =~= seq![s.skip(from)]);
        },
        Some(open) => {
            let plain = s.subrange(from, open);
            display::lemma_closing_quote(s, open + 1, s[open]);
            match display::closing_quote(s, open + 1, s[open]) {
                None => {
                    lemma_concat_front(seq![plain, s.skip(open)]);
                    lemma_concat_one(s.skip(open));
                    assert(all =~= seq![plain, s.skip(open)]);
                    assert(seq![plain, s.skip(open)].skip(1) =~= seq![s.skip(open)]);
                    assert(plain + s.skip(open) =~= s.skip(from));
                },
                Some(close) => {
                    law_segments_cover(s, close + 1);
                    let quoted = s.subrange(open, close + 1);
                    let rest = display::segments(s, close + 1).map_values(own);
                    assert(all =~= seq![plain, quoted] + rest);
                    lemma_concat_front(all);
                    assert(all.skip(1) =~= seq![quoted] + rest);
                    lemma_concat_front(all.skip(1));
                    assert(all.skip(1).skip(1) =~= rest);
                    assert(plain + (quoted + s.skip(close + 1)) =~= s.skip(from));
                },
            }
        },
    }
}

proof fn lemma_concat_one(part: Seq<char>)
    ensures
        text::concat(seq![part]) == part,
{
    assert(seq![part].drop_last() =~= Seq::<Seq<char>>::empty());
    assert(text::concat(seq![part].drop_last()) =~= Seq::<char>::empty());
    assert(text::concat(seq![part]) =~= part);
}

proof fn lemma_concat_front(parts: Seq<Seq<char>>)
    requires
        parts.len() > 0,
    ensures
        text::concat(parts) == parts[0] + text::concat(parts.skip(1)),
    decreases parts.len(),
{
    if parts.len() == 1 {
        assert(parts =~= seq![parts[0]]);
        lemma_concat_one(parts[0]);
        assert(parts.skip(1) =~= Seq::<Seq<char>>::empty());
        assert(text::concat(parts.skip(1)) =~= Seq::<char>::empty());
        assert(parts[0] + Seq::<char>::empty() =~= parts[0]);
    } else {
        lemma_concat_front(parts.drop_last());
        assert(parts.drop_last().skip(1) =~= parts.skip(1).drop_last());
        assert(parts.skip(1).last() == parts.last());
        assert(parts[0] + (text::concat(parts.skip(1).drop_last()) + parts.last()) =~= (parts[0]
            + text::concat(parts.skip(1).drop_last())) + parts.last());
    }
}

/// The contents of string literals are never touched, neither by the normal form nor by
/// the naming of `Self` type variables: what comes out is made of the segments that went
/// in, and of these the quoted ones are the same.
pub proof fn law_literals_are_untouched(
    s: Seq<char>,
    owners: Seq<display::SelfOwner>,
    at: int,
)
    requires
        0 <= at < display::segments(s, 0).len(),
        display::segments(s, 0)[at].quoted,
    ensures
        display::segment_form(display::segments(s, 0)[at]) == display::segments(s, 0)[at].text,
        display::named_segment(owners, display::segments(s, 0)[at]) == display::segments(
            s,
            0,
        )[at].text,
{
}

/// `s` holds no module display: no `'>` follows a `<module '`.
pub open spec fn module_free(s: Seq<char>) -> bool {
    forall|at: int, end: int|
        #[trigger] text::occurs_at(s, "<module '"@, at) && at + "<module '"@.len() <= end
            ==> !#[trigger] text::occurs_at(s, "'>"@, end)
}

proof fn lemma_module_free(s: Seq<char>, from: int)
    requires
        0 <= from <= s.len(),
        module_free(s),
    ensures
        display::module_form(s, from) == s.skip(from),
    decreases s.len() - from,
{
    let open = "<module '"@;
    reveal_strlit("<module '");
    text::lemma_first_occurrence(s, open, from);
    if let Some(at) = text::first_occurrence(s, open, from) {
        let name = at + open.len();
        text::lemma_first_occurrence(s, "'>"@, name);
        lemma_module_free(s, name);
        assert(s.subrange(from, at) + open + s.skip(name) =~= s.skip(from)) by {
            assert(s.subrange(at, name) == open);
        }
    }
}

/// Without module displays there is nothing to rewrite for them.
proof fn lemma_modules_stay(s: Seq<char>)
    requires
        module_free(s),
    ensures
        display::module_form(s, 0) == s,
{
    lemma_module_free(s, 0);
    assert(s.skip(0) =~= s);
}

/// A stretch between literals with nothing to drop: no star marker and no named signature.
pub open spec fn nothing_to_drop(s: Seq<char>) -> bool {
    &&& forall|at: int| !#[trigger] display::star_marker(s, at)
    &&& forall|at: int, paren: int| !#[trigger] display::named_signature(s, at, paren)
}

/// A display has the normal form already if it holds no module display and the stretches
/// outside its string literals hold neither star markers nor named signatures.
pub proof fn law_plain_displays_stay(s: Seq<char>)
    requires
        module_free(s),
        forall|i: int|
            0 <= i < display::segments(s, 0).len() && !(#[trigger] display::segments(
                s,
                0,
            )[i]).quoted ==> nothing_to_drop(display::segments(s, 0)[i].text),
    ensures
        display::normalized(s) == s,
{
    lemma_modules_stay(s);
    let cut = display::segments(s, 0);
    assert forall|i: int| 0 <= i < cut.len() implies display::segment_form(#[trigger] cut[i])
        == cut[i].text by {
        if !cut[i].quoted {
            lemma_plain_form(cut[i].text, 0);
            assert(cut[i].text.skip(0) =~= cut[i].text);
        }
    }
    assert(cut.map_values(|g: Segment| display::segment_form(g)) =~= cut.map_values(
        |g: Segment| g.text,
    ));
    law_segments_cover(s, 0);
    assert(s.skip(0) =~= s);
}

proof fn lemma_plain_form(s: Seq<char>, from: int)
    requires
        0 <= from <= s.len(),
        nothing_to_drop(s),
    ensures
        display::plain_form(s, from) == s.skip(from),
    decreases s.len() - from,
{
    if from < s.len() {
        lemma_plain_form(s, from + 1);
        assert(!display::star_marker(s, from));
        assert(seq![s[from]] + s.skip(from + 1) =~= s.skip(from));
    } else {
        assert(s.skip(from) =~= Seq::<char>::empty());
    }
}

// -- what is dropped --------------------------------------------------------------------

/// `places` are the positions in `s`, in order, at which the characters of `out` stand.
pub open spec fn places_of(out: Seq<char>, s: Seq<char>, places: Seq<int>) -> bool {
    &&& places.len() == out.len()
    &&& forall|i: int|
        0 <= i < places.len() ==> 0 <= #[trigger] places[i] < s.len() && out[i] == s[places[i]]
    &&& forall|i: int, j: int| 0 <= i < j < places.len() ==> places[i] < places[j]
}

/// `out` is `s` with some characters dropped.
pub open spec fn dropped_from(out: Seq<char>, s: Seq<char>) -> bool {
    exists|places: Seq<int>| places_of(out, s, places)
}

proof fn lemma_drops_nothing(s: Seq<char>)
    ensures
        dropped_from(s, s),
{
    assert(places_of(s, s, Seq::new(s.len(), |i: int| i)));
}

proof fn lemma_drops_join(out: Seq<char>, s: Seq<char>, more: Seq<char>, t: Seq<char>)
    requires
        dropped_from(out, s),
        dropped_from(more, t),
    ensures
        dropped_from(out + more, s + t),
{
    let first = choose|places: Seq<int>| places_of(out, s, places);
    let second = choose|places: Seq<int>| places_of(more, t, places);
    let places = first + Seq::new(second.len(), |i: int| second[i] + s.len());
    assert forall|i: int| 0 <= i < places.len() implies 0 <= #[trigger] places[i] < (s + t).len()
        && (out + more)[i] == (s + t)[places[i]] by {
        if i >= first.len() {
            assert(places[i] == second[i - first.len()] + s.len());
        } else {
            assert(places[i] == first[i]);
        }
    }
    assert forall|i: int, j: int| 0 <= i < j < places.len() implies places[i] < places[j] by {
        if i < first.len() {
            assert(places[i] == first[i]);
        } else {
            assert(places[i] == second[i - first.len()] + s.len());
        }
        if j < first.len() {
            assert(places[j] == first[j]);
        } else {
            assert(places[j] == second[j - first.len()] + s.len());
            assert(second[j - first.len()] >= 0);
        }
    }
    assert(places_of(out + more, s + t, places));
}

proof fn lemma_plain_form_drops(s: Seq<char>, from: int)
    requires
        0 <= from <= s.len(),
    ensures
        dropped_from(display::plain_form(s, from), s.skip(from)),
    decreases s.len() - from,
{
    let out = display::plain_form(s, from);
    let none = Seq::<char>::empty();
    assert(places_of(none, s.subrange(from, from), Seq::<int>::empty()));
    if from == s.len() {
        assert(s.skip(from) =~= s.subrange(from, from));
    } else if display::star_marker(s, from) {
        lemma_plain_form_drops(s, from + 1);
        assert(places_of(none, seq![s[from]], Seq::<int>::empty()));
        lemma_drops_join(none, seq![s[from]], out, s.skip(from + 1));
        assert(none + out =~= out);
        assert(seq![s[from]] + s.skip(from + 1) =~= s.skip(from));
    } else if exists|paren: int| display::named_signature(s, from, paren) {
        let paren = choose|paren: int| display::named_signature(s, from, paren);
        lemma_plain_form_drops(s, paren);
        assert(places_of(none, s.subrange(from, paren), Seq::<int>::empty()));
        lemma_drops_join(none, s.subrange(from, paren), out, s.skip(paren));
        assert(none + out =~= out);
        assert(s.subrange(from, paren) + s.skip(paren) =~= s.skip(from));
    } else {
        lemma_plain_form_drops(s, from + 1);
        lemma_drops_nothing(seq![s[from]]);
        lemma_drops_join(
            seq![s[from]],
            seq![s[from]],
            display::plain_form(s, from + 1),
            s.skip(from + 1),
        );
        assert(seq![s[from]] + s.skip(from + 1) =~= s.skip(from));
    }
}

proof fn lemma_forms_drop(cut: Seq<Segment>)
    ensures
        dropped_from(
            text::concat(cut.map_values(|g: Segment| display::segment_form(g))),
            text::concat(cut.map_values(|g: Segment| g.text)),
        ),
    decreases cut.len(),
{
    let form = |g: Segment| display::segment_form(g);
    let own = |g: Segment| g.text;
    if cut.len() == 0 {
        assert(places_of(Seq::empty(), Seq::empty(), Seq::<int>::empty()));
        assert(text::concat(cut.map_values(form)) =~= Seq::<char>::empty());
        assert(text::concat(cut.map_values(own)) =~= Seq::<char>::empty());
    } else {
        let before = cut.drop_last();
        let last = cut.last();
        lemma_forms_drop(before);
        if last.quoted {
            lemma_drops_nothing(last.text);
        } else {
            lemma_plain_form_drops(last.text, 0);
            assert(last.text.skip(0) =~= last.text);
        }
        lemma_drops_join(
            text::concat(before.map_values(form)),
            text::concat(before.map_values(own)),
            display::segment_form(last),
            last.text,
        );
        assert(cut.map_values(form).drop_last() =~= before.map_values(form));
        assert(cut.map_values(own).drop_last() =~= before.map_values(own));
    }
}

/// The normal form of a display without module displays only drops characters: those that
/// stay keep their order, and nothing is added.
pub proof fn law_normal_forms_only_drop(s: Seq<char>)
    requires
        module_free(s),
    ensures
        dropped_from(display::normalized(s), s),
{
    lemma_modules_stay(s);
    lemma_forms_drop(display::segments(s, 0));
    law_segments_cover(s, 0);
    assert(s.skip(0) =~= s);
}

// -- the literals of a normal form ------------------------------------------------------

/// No quote character stands in `s`.
spec fn quote_free(s: Seq<char>) -> bool {
    forall|i: int| 0 <= i < s.len() ==> s[i] != '"' && s[i] != '\''
}

proof fn lemma_plain_form_quote_free(s: Seq<char>, from: int)
    requires
        0 <= from <= s.len(),
        quote_free(s),
    ensures
        quote_free(display::plain_form(s, from)),
{
    lemma_plain_form_drops(s, from);
    let out = display::plain_form(s, from);
    let places = choose|places: Seq<int>| places_of(out, s.skip(from), places);
    assert forall|i: int| 0 <= i < out.len() implies out[i] != '"' && out[i] != '\'' by {
        assert(out[i] == s.skip(from)[places[i]]);
    }
}

/// The quote that closes a literal is the same wherever the literal stands.
proof fn lemma_closing_quote_moves(
    s: Seq<char>,
    from: int,
    quote: char,
    close: int,
    t: Seq<char>,
    by: int,
)
    requires
        0 <= from,
        0 <= from + by,
        display::closing_quote(s, from, quote) == Some(close),
        close + by < t.len(),
        forall|j: int| from <= j <= close ==> #[trigger] s[j] == t[j + by],
    ensures
        display::closing_quote(t, from + by, quote) == Some(close + by),
    decreases s.len() + 1 - from,
{
    display::lemma_closing_quote(s, from, quote);
    assert(s[from] == t[from + by]);
    if s[from] == '\\' {
        display::lemma_closing_quote(s, from + 2, quote);
        lemma_closing_quote_moves(s, from + 2, quote, close, t, by);
    } else if s[from] != quote {
        lemma_closing_quote_moves(s, from + 1, quote, close, t, by);
    }
}

/// A literal that nothing closes stays open wherever it stands, if it runs to the end.
proof fn lemma_open_literal_moves(s: Seq<char>, from: int, quote: char, t: Seq<char>, by: int)
    requires
        0 <= from,
        0 <= from + by,
        display::closing_quote(s, from, quote) is None,
        t.len() == s.len() + by,
        forall|j: int| from <= j < s.len() ==> #[trigger] s[j] == t[j + by],
    ensures
        display::closing_quote(t, from + by, quote) is None,
    decreases s.len() + 1 - from,
{
    if from < s.len() {
        assert(s[from] == t[from + by]);
        if s[from] == '\\' {
            lemma_open_literal_moves(s, from + 2, quote, t, by);
        } else if s[from] != quote {
            lemma_open_literal_moves(s, from + 1, quote, t, by);
        }
    }
}

/// Where the first quote character stands.
proof fn lemma_opening_quote_at(s: Seq<char>, from: int, at: int)
    requires
        0 <= from <= at < s.len(),
        s[at] == '"' || s[at] == '\'',
        forall|j: int| from <= j < at ==> s[j] != '"' && s[j] != '\'',
    ensures
        display::opening_quote(s, from) == Some(at),
{
    display::lemma_opening_quote(s, from);
}

/// The segments of a suffix are those of the whole from there on.
proof fn lemma_segments_of_suffix(s: Seq<char>, from: int, t: Seq<char>, by: int)
    requires
        0 <= by,
        t.len() == s.len() + by,
        forall|j: int| 0 <= j < s.len() ==> #[trigger] s[j] == t[j + by],
        0 <= from <= s.len(),
    ensures
        display::segments(t, from + by) == display::segments(s, from),
    decreases s.len() - from,
{
    display::lemma_opening_quote(s, from);
    display::lemma_opening_quote(t, from + by);
    match display::opening_quote(s, from) {
        None => {
            if let Some(at) = display::opening_quote(t, from + by) {
                assert(s[at - by] == t[at]);
            }
            assert(t.skip(from + by) =~= s.skip(from));
        },
        Some(open) => {
            assert(s[open] == t[open + by]);
            assert forall|j: int| from + by <= j < open + by implies t[j] != '"' && t[j]
                != '\'' by {
                assert(s[j - by] == t[j]);
            }
            lemma_opening_quote_at(t, from + by, open + by);
            assert(t.subrange(from + by, open + by) =~= s.subrange(from, open));
            display::lemma_closing_quote(s, open + 1, s[open]);
            match display::closing_quote(s, open + 1, s[open]) {
                None => {
                    lemma_open_literal_moves(s, open + 1, s[open], t, by);
                    assert(t.skip(open + by) =~= s.skip(open));
                },
                Some(close) => {
                    lemma_closing_quote_moves(s, open + 1, s[open], close, t, by);
                    assert(t.subrange(open + by, close + by + 1) =~= s.subrange(open, close + 1));
                    lemma_segments_of_suffix(s, close + 1, t, by);
                },
            }
        },
    }
}

/// A segment in its final form.
pub open spec fn formed(segment: Segment) -> Segment {
    Segment { quoted: segment.quoted, text: display::segment_form(segment) }
}

proof fn lemma_segments_of_forms(s: Seq<char>, from: int)
    requires
        0 <= from <= s.len(),
    ensures
        display::segments(
            text::concat(
                display::segments(s, from).map_values(|g: Segment| display::segment_form(g)),
            ),
            0,
        ) == display::segments(s, from).map_values(|g: Segment| formed(g)),
    decreases s.len() - from,
{
    let form = |g: Segment| display::segment_form(g);
    let whole = |g: Segment| formed(g);
    let cut = display::segments(s, from);
    let parts = cut.map_values(form);
    let t = text::concat(parts);
    display::lemma_opening_quote(s, from);
    match display::opening_quote(s, from) {
        None => {
            let plain = s.skip(from);
            lemma_plain_form_quote_free(plain, 0);
            assert(parts =~= seq![display::plain_form(plain, 0)]);
            lemma_concat_one(display::plain_form(plain, 0));
            display::lemma_opening_quote(t, 0);
            assert(t.skip(0) =~= t);
            assert(display::segments(t, 0) =~= cut.map_values(whole));
        },
        Some(open) => {
            let plain = s.subrange(from, open);
            let head = display::plain_form(plain, 0);
            lemma_plain_form_quote_free(plain, 0);
            let first = Segment { quoted: false, text: plain };
            let by = head.len() - open;
            display::lemma_closing_quote(s, open + 1, s[open]);
            match display::closing_quote(s, open + 1, s[open]) {
                None => {
                    let rest = s.skip(open);
                    assert(parts =~= seq![head, rest]);
                    lemma_concat_front(parts);
                    assert(parts.skip(1) =~= seq![rest]);
                    lemma_concat_one(rest);
                    assert(t == head + rest);
                    assert(t[head.len() as int] == s[open]);
                    lemma_opening_quote_at(t, 0, head.len() as int);
                    assert forall|j: int| open + 1 <= j < s.len() implies #[trigger] s[j] == t[j
                        + by] by {}
                    lemma_open_literal_moves(s, open + 1, s[open], t, by);
                    assert(t.subrange(0, head.len() as int) =~= head);
                    assert(t.skip(head.len() as int) =~= rest);
                    assert(display::segments(t, 0) =~= cut.map_values(whole));
                },
                Some(close) => {
                    let quoted = s.subrange(open, close + 1);
                    let last = Segment { quoted: true, text: quoted };
                    let after = display::segments(s, close + 1);
                    let tail = text::concat(after.map_values(form));
                    lemma_segments_of_forms(s, close + 1);
                    assert(parts =~= seq![head, quoted] + after.map_values(form));
                    lemma_concat_front(parts);
                    assert(parts.skip(1) =~= seq![quoted] + after.map_values(form));
                    lemma_concat_front(parts.skip(1));
                    assert(parts.skip(1).skip(1) =~= after.map_values(form));
                    assert(t == head + (quoted + tail));
                    assert(t[head.len() as int] == s[open]);
                    lemma_opening_quote_at(t, 0, head.len() as int);
                    assert forall|j: int| open + 1 <= j <= close implies #[trigger] s[j] == t[j
                        + by] by {}
                    lemma_closing_quote_moves(s, open + 1, s[open], close, t, by);
                    assert(t.subrange(0, head.len() as int) =~= head);
                    assert(t.subrange(head.len() as int, close + by + 1) =~= quoted);
                    lemma_segments_of_suffix(tail, 0, t, close + by + 1);
                    assert(display::segments(t, 0) =~= seq![
                        Segment { quoted: false, text: head },
                        last,
                    ] + after.map_values(whole));
                    assert(display::segments(t, 0) =~= cut.map_values(whole));
                },
            }
        },
    }
}

/// The string literals of the normal form are those of the display, in the same order; the
/// stretches between them are the same ones without star markers and signature names.
/// (The module displays are rewritten beforehand: their names become literals.)
pub proof fn law_literals_keep_their_order(s: Seq<char>)
    ensures
        display::segments(display::normalized(s), 0) == display::segments(
            display::module_form(s, 0),
            0,
        ).map_values(|g: Segment| formed(g)),
        module_free(s) ==> display::segments(display::normalized(s), 0) == display::segments(
            s,
            0,
        ).map_values(|g: Segment| formed(g)),
{
    lemma_segments_of_forms(display::module_form(s, 0), 0);
    if module_free(s) {
        lemma_modules_stay(s);
    }
}

/// Messages hold no backticks.
pub proof fn law_no_backticks(message: Seq<char>, at: int)
    requires
        0 <= at < message.len(),
    ensures
        display::plain_quotes(message)[at] != '`',
        display::plain_quotes(message).len() == message.len(),
{
}

} // verus!
