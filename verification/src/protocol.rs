//! What the batch protocol promises, in terms of the requests and the replies.

use vstd::prelude::*;

use crate::batch;
use crate::batch::{
    AnswerView, BatchQuery, OverrideView, Reported, RequestErrorView, Site, World,
};
use crate::diagnostics;
use crate::diagnostics::{EntryView, RevealView};
use crate::reveals;
use crate::session;
use crate::session::{Action, ChangeView, Event, RunView, Stage};
use crate::text;
use crate::tree;
use crate::types::FileId;

verus! {

// -- requests ---------------------------------------------------------------------------

/// Neither an expression nor all three numbers of a span.
pub open spec fn asks_nothing(query: BatchQuery) -> bool {
    query.expr is None && (query.line is None || query.col_start is None || query.col_end is None)
}

/// A request is refused for its first query that asks nothing, and for no other reason.
pub proof fn law_queries_ask_something(queries: Seq<BatchQuery>, at: int)
    ensures
        (0 <= at < queries.len() && asks_nothing(queries[at]) && forall|i: int|
            0 <= i < at ==> !asks_nothing(#[trigger] queries[i])) ==> batch::first_incomplete(
            queries,
            0,
        ) == Some(at),
        (forall|i: int| 0 <= i < queries.len() ==> !asks_nothing(#[trigger] queries[i]))
            ==> batch::first_incomplete(queries, 0) is None,
{
    lemma_asks(queries, 0, at);
}

proof fn lemma_asks(queries: Seq<BatchQuery>, from: int, at: int)
    requires
        0 <= from,
    ensures
        (from <= at < queries.len() && asks_nothing(queries[at]) && forall|i: int|
            from <= i < at ==> !asks_nothing(#[trigger] queries[i])) ==> batch::first_incomplete(
            queries,
            from,
        ) == Some(at),
        (forall|i: int| from <= i < queries.len() ==> !asks_nothing(#[trigger] queries[i]))
            ==> batch::first_incomplete(queries, from) is None,
    decreases queries.len() - from,
{
    if from < queries.len() {
        lemma_asks(queries, from + 1, at);
        assert(asks_nothing(queries[from]) == !batch::complete(queries[from]));
    }
}

/// The overlay at a position of a world stands for no file of the project.
pub open spec fn missing(
    worlds: Seq<World>,
    files: Seq<Vec<Option<FileId>>>,
    world: int,
    overlay: int,
) -> bool {
    &&& 0 <= world < worlds.len()
    &&& 0 <= overlay < worlds[world].overlays@.len()
    &&& world < files.len() && overlay < files[world]@.len() ==> files[world]@[overlay] is None
}

/// A request is refused for the first overlay without a file; otherwise the files are kept
/// and the sources are next.
pub proof fn law_overlays_need_files(
    run: RunView,
    queries: Vec<Option<FileId>>,
    overlays: Vec<Vec<Option<FileId>>>,
    world: int,
    overlay: int,
)
    requires
        run.stage is Files,
    ensures
        ({
            let worlds = run.request.worlds@;
            let next = session::stepped(run, Event::Resolved { queries, overlays });
            &&& missing(worlds, overlays@, world, overlay) && (forall|w: int, o: int| #[trigger]
                missing(worlds, overlays@, w, o) ==> world < w || (world == w && overlay <= o))
                ==> next == Err::<RunView, RequestErrorView>(
                RequestErrorView::UnresolvedFile(worlds[world].overlays@[overlay].file@),
            )
            &&& (forall|w: int, o: int| !#[trigger] missing(worlds, overlays@, w, o)) ==> next
                == Ok::<RunView, RequestErrorView>(
                RunView {
                    stage: Stage::Sources,
                    query_files: queries@,
                    overlay_files: overlays@,
                    ..run
                },
            )
        }),
{
    let worlds = run.request.worlds@;
    assert forall|w: int, o: int|
        batch::unresolved_at(worlds, overlays@, w, o) == missing(worlds, overlays@, w, o) by {}
    if missing(worlds, overlays@, world, overlay) && (forall|w: int, o: int| #[trigger]
        missing(worlds, overlays@, w, o) ==> world < w || (world == w && overlay <= o)) {
        assert(batch::first_unresolved(worlds, overlays@, world, overlay)) by {
            assert(missing(worlds, overlays@, world, overlay));
            assert forall|w: int, o: int| #[trigger]
                batch::unresolved_at(worlds, overlays@, w, o) implies world < w || (world == w
                && overlay <= o) by {
                assert(missing(worlds, overlays@, w, o));
            }
        }
        let (w, o): (int, int) = choose|w: int, o: int|
            batch::first_unresolved(worlds, overlays@, w, o);
        assert(batch::first_unresolved(worlds, overlays@, w, o));
        assert(missing(worlds, overlays@, w, o));
        assert(batch::unresolved_at(worlds, overlays@, world, overlay));
    }
    if forall|w: int, o: int| !#[trigger] missing(worlds, overlays@, w, o) {
        assert forall|w: int, o: int| !batch::first_unresolved(worlds, overlays@, w, o) by {
            assert(!missing(worlds, overlays@, w, o));
        }
    }
}

// -- reveals ----------------------------------------------------------------------------

/// The file in which the expression of a query is revealed.
pub open spec fn revealed_in(
    queries: Seq<BatchQuery>,
    files: Seq<Option<FileId>>,
    at: int,
) -> Option<FileId> {
    if 0 <= at < queries.len() && at < files.len() && queries[at].expr is Some {
        files[at]
    } else {
        None
    }
}

/// The turns go through all queries once, by the names of their files and, for one name, in
/// the order of the request.
pub proof fn law_turns_by_name(queries: Seq<BatchQuery>, k: int, l: int)
    requires
        0 <= k < l < queries.len(),
    ensures
        ({
            let turns = batch::turns(queries, queries.len() as int);
            &&& turns.len() == queries.len()
            &&& turns.no_duplicates()
            &&& 0 <= turns[k] < queries.len()
            &&& 0 <= turns[l] < queries.len()
            &&& text::less(queries[turns[k]].file@, queries[turns[l]].file@) || (
            queries[turns[k]].file@ == queries[turns[l]].file@ && turns[k] < turns[l])
        }),
{
    batch::law_reveals_go_by_file_name(queries, queries.len() as int);
    let turns = batch::turns(queries, queries.len() as int);
    assert(batch::revealed_before(queries, turns[k], turns[l]));
}

/// A file gets reveals exactly where the expression of a query is asked for in it, and it
/// is named once; a file whose first turn is earlier stands before.
pub proof fn law_files_with_reveals(
    queries: Seq<BatchQuery>,
    files: Seq<Option<FileId>>,
    at: int,
    p: int,
    q: int,
)
    ensures
        ({
            let listed = batch::revealing_files(queries, files, queries.len() as int);
            &&& listed.no_duplicates()
            &&& revealed_in(queries, files, at) matches Some(file) ==> listed.contains(file)
            &&& 0 <= p < q < listed.len() ==> exists|k: int|
                first_turn(queries, files, listed[p], listed[q], k)
        }),
        forall|file: FileId|
            #[trigger] batch::revealing_files(queries, files, queries.len() as int).contains(file)
                ==> asked_in(queries, files, file),
{
    let n = queries.len() as int;
    let listed = batch::revealing_files(queries, files, n);
    batch::law_reveals_go_by_file_name(queries, n);
    batch::lemma_revealing_files(queries, files, n);
    lemma_listed(queries, files, n);
    if let Some(file) = revealed_in(queries, files, at) {
        assert(batch::expr_file(queries, files, at) == Some(file));
        batch::lemma_all_reveal(queries, files, at);
    }
    if 0 <= p < q < listed.len() {
        lemma_listed_order(queries, files, n, p, q);
    }
    assert forall|file: FileId| #[trigger] listed.contains(file) implies asked_in(
        queries,
        files,
        file,
    ) by {
        let i = listed.index_of(file);
        assert(listed[i] == file);
    }
}

/// The expression of some query is asked for in a file.
pub open spec fn asked_in(
    queries: Seq<BatchQuery>,
    files: Seq<Option<FileId>>,
    file: FileId,
) -> bool {
    exists|i: int| #[trigger] revealed_in(queries, files, i) == Some(file)
}

/// In the turn `k` one file is revealed in, and in no turn up to then the other.
pub open spec fn first_turn(
    queries: Seq<BatchQuery>,
    files: Seq<Option<FileId>>,
    one: FileId,
    other: FileId,
    k: int,
) -> bool {
    let turns = batch::turns(queries, queries.len() as int);
    &&& 0 <= k < queries.len()
    &&& revealed_in(queries, files, turns[k]) == Some(one)
    &&& forall|l: int|
        0 <= l <= k ==> revealed_in(queries, files, #[trigger] turns[l]) != Some(other)
}

proof fn lemma_listed(queries: Seq<BatchQuery>, files: Seq<Option<FileId>>, n: int)
    requires
        0 <= n <= queries.len(),
    ensures
        forall|i: int|
            0 <= i < batch::revealing_files(queries, files, n).len() ==> asked_in(
                queries,
                files,
                #[trigger] batch::revealing_files(queries, files, n)[i],
            ),
    decreases n,
{
    if n > 0 {
        lemma_listed(queries, files, n - 1);
        let turn = batch::turn(queries, n - 1);
        assert(batch::expr_file(queries, files, turn) == revealed_in(queries, files, turn));
        let before = batch::revealing_files(queries, files, n - 1);
        let listed = batch::revealing_files(queries, files, n);
        assert forall|i: int| 0 <= i < listed.len() implies asked_in(
            queries,
            files,
            #[trigger] listed[i],
        ) by {
            if i < before.len() {
                assert(listed[i] == before[i]);
            }
        }
    }
}

proof fn lemma_listed_order(
    queries: Seq<BatchQuery>,
    files: Seq<Option<FileId>>,
    n: int,
    p: int,
    q: int,
)
    requires
        0 <= n <= queries.len(),
        0 <= p < q < batch::revealing_files(queries, files, n).len(),
    ensures
        exists|k: int|
            k < n && first_turn(
                queries,
                files,
                batch::revealing_files(queries, files, n)[p],
                batch::revealing_files(queries, files, n)[q],
                k,
            ),
    decreases n,
{
    let before = batch::revealing_files(queries, files, n - 1);
    let listed = batch::revealing_files(queries, files, n);
    let turns = batch::turns(queries, queries.len() as int);
    if n > 0 {
        if q < before.len() {
            lemma_listed_order(queries, files, n - 1, p, q);
            let k = choose|k: int|
                k < n - 1 && first_turn(queries, files, before[p], before[q], k);
            assert(k < n && first_turn(queries, files, listed[p], listed[q], k));
        } else {
            lemma_turn_of_listed(queries, files, n - 1, p);
            let k = choose|k: int|
                0 <= k < n - 1 && revealed_in(queries, files, #[trigger] turns[k]) == Some(
                    before[p],
                );
            assert forall|l: int| 0 <= l <= k implies revealed_in(
                queries,
                files,
                #[trigger] turns[l],
            ) != Some(listed[q]) by {
                batch::lemma_revealing_files(queries, files, n - 1);
                assert(batch::turn(queries, l) == turns[l]);
                assert(batch::expr_file(queries, files, turns[l]) == revealed_in(
                    queries,
                    files,
                    turns[l],
                ));
            }
            assert(k < n && first_turn(queries, files, listed[p], listed[q], k));
        }
    }
}

proof fn lemma_turn_of_listed(
    queries: Seq<BatchQuery>,
    files: Seq<Option<FileId>>,
    n: int,
    p: int,
)
    requires
        0 <= n <= queries.len(),
        0 <= p < batch::revealing_files(queries, files, n).len(),
    ensures
        exists|k: int|
            0 <= k < n && revealed_in(
                queries,
                files,
                #[trigger] batch::turns(queries, queries.len() as int)[k],
            ) == Some(batch::revealing_files(queries, files, n)[p]),
    decreases n,
{
    if n > 0 {
        let before = batch::revealing_files(queries, files, n - 1);
        let turns = batch::turns(queries, queries.len() as int);
        assert(batch::turn(queries, n - 1) == turns[n - 1]);
        if p < before.len() {
            lemma_turn_of_listed(queries, files, n - 1, p);
        } else {
            assert(revealed_in(queries, files, turns[n - 1]) == Some(
                batch::revealing_files(queries, files, n)[p],
            ));
        }
    }
}

/// In a file the expressions of all its queries are revealed, in their turns.
pub proof fn law_expressions_of_a_file(
    queries: Seq<BatchQuery>,
    files: Seq<Option<FileId>>,
    file: FileId,
    n: int,
)
    requires
        0 <= n <= queries.len(),
    ensures
        batch::exprs_in(queries, files, file, n) == tree::gathered(
            batch::turns(queries, queries.len() as int).take(n),
            |at: int|
                if revealed_in(queries, files, at) == Some(file) {
                    Some(queries[at].expr->Some_0@)
                } else {
                    None
                },
        ),
    decreases n,
{
    batch::law_reveals_go_by_file_name(queries, queries.len() as int);
    let turns = batch::turns(queries, queries.len() as int);
    if n > 0 {
        law_expressions_of_a_file(queries, files, file, n - 1);
        assert(turns.take(n).drop_last() =~= turns.take(n - 1));
        assert(turns.take(n).last() == batch::turn(queries, n - 1));
    }
}

/// Each file with reveals is overridden by its own text with those reveals, and no other
/// file is; a query that reveals nothing has no site.
pub proof fn law_overrides_for_reveals(
    queries: Seq<BatchQuery>,
    files: Seq<Option<FileId>>,
    sources: Seq<String>,
    at: int,
)
    ensures
        ({
            let n = queries.len() as int;
            let listed = batch::revealing_files(queries, files, n);
            let overrides = batch::reveal_overrides(queries, files, sources);
            &&& overrides.len() == listed.len()
            &&& 0 <= at < listed.len() && at < sources.len() ==> overrides[at] == (OverrideView {
                file: listed[at],
                content: reveals::with_reveals(
                    sources[at]@,
                    batch::exprs_in(queries, files, listed[at], n),
                ),
            })
            &&& sources.len() <= at < listed.len() ==> overrides[at] == (OverrideView {
                file: listed[at],
                content: reveals::with_reveals(
                    Seq::empty(),
                    batch::exprs_in(queries, files, listed[at], n),
                ),
            })
        }),
        revealed_in(queries, files, at) is None ==> batch::site_of(queries, files, sources, at)
            is None,
        batch::sites_of(queries, files, sources).len() == queries.len(),
        0 <= at < queries.len() ==> batch::sites_of(queries, files, sources)[at] == batch::site_of(
            queries,
            files,
            sources,
            at,
        ),
{
}

// -- the order of a check ---------------------------------------------------------------

/// Where a diagnostic starts.
pub open spec fn starts_in(reported: Reported, file: FileId, start: u32) -> bool {
    reported.diagnostic.annotation matches Some(annotation) && (annotation.file matches Some(own)
        && own.id == file) && (annotation.span matches Some(span) && span.range.start == start)
}

/// A diagnostic is about a file, at whatever place.
pub open spec fn about(reported: Reported, file: FileId) -> bool {
    reported.diagnostic.annotation matches Some(annotation) && (annotation.file matches Some(own)
        && own.id == file) && annotation.span is Some
}

/// A diagnostic is about a file, and starts behind an offset.
pub open spec fn behind(reported: Reported, file: FileId, start: u32) -> bool {
    reported.diagnostic.annotation matches Some(annotation) && (annotation.file matches Some(own)
        && own.id == file) && (annotation.span matches Some(span) && start < span.range.start)
}

/// A further diagnostic goes before the first one of its file that starts behind it; where
/// there is none, right behind the last one of its file; and at the end otherwise.
pub proof fn law_place_of_a_further_diagnostic(
    reported: Seq<Reported>,
    further: Reported,
    file: FileId,
    start: u32,
    at: int,
)
    requires
        starts_in(further, file, start),
    ensures
        (0 <= at < reported.len() && behind(reported[at], file, start) && forall|i: int|
            0 <= i < at ==> !behind(#[trigger] reported[i], file, start)) ==> batch::slot_for(
            reported,
            further,
        ) == at,
        (forall|i: int| 0 <= i < reported.len() ==> !behind(#[trigger] reported[i], file, start))
            ==> {
            &&& 0 < at <= reported.len() && about(reported[at - 1], file) && (forall|i: int|
                at <= i < reported.len() ==> !about(#[trigger] reported[i], file))
                ==> batch::slot_for(reported, further) == at
            &&& (forall|i: int| 0 <= i < reported.len() ==> !about(#[trigger] reported[i], file))
                ==> batch::slot_for(reported, further) == reported.len()
        },
{
    assert(batch::start_of(further) == Some((file, start)));
    lemma_later(reported, file, start, 0, at);
    if forall|i: int| 0 <= i < reported.len() ==> !behind(#[trigger] reported[i], file, start) {
        lemma_end(reported, file, reported.len() as int, at);
        lemma_end(reported, file, reported.len() as int, 0);
    }
}

proof fn lemma_later(reported: Seq<Reported>, file: FileId, start: u32, from: int, at: int)
    requires
        0 <= from,
    ensures
        (from <= at < reported.len() && behind(reported[at], file, start) && forall|i: int|
            from <= i < at ==> !behind(#[trigger] reported[i], file, start))
            ==> batch::first_later(reported, file, start, from) == Some(at),
        (forall|i: int|
            from <= i < reported.len() ==> !behind(#[trigger] reported[i], file, start))
            ==> batch::first_later(reported, file, start, from) is None,
    decreases reported.len() - from,
{
    if from < reported.len() {
        lemma_later(reported, file, start, from + 1, at);
        assert(behind(reported[from], file, start) == (batch::start_of(reported[from]) matches Some(
            place,
        ) && place.0 == file && start < place.1));
    }
}

proof fn lemma_end(reported: Seq<Reported>, file: FileId, n: int, at: int)
    requires
        0 <= n <= reported.len(),
    ensures
        0 < at <= n && about(reported[at - 1], file) && (forall|i: int|
            at <= i < n ==> !about(#[trigger] reported[i], file)) ==> batch::end_of_file(
            reported,
            file,
            n,
        ) == at,
        (forall|i: int| 0 <= i < n ==> !about(#[trigger] reported[i], file))
            ==> batch::end_of_file(reported, file, n) == 0,
    decreases n,
{
    if n > 0 {
        lemma_end(reported, file, n - 1, at);
        assert(about(reported[n - 1], file) == (batch::start_of(reported[n - 1]) matches Some(
            place,
        ) && place.0 == file));
    }
}

/// A diagnostic without a place goes to the end.
pub proof fn law_diagnostics_without_a_place(reported: Seq<Reported>, further: Reported)
    requires
        forall|file: FileId| !#[trigger] about(further, file),
    ensures
        batch::slot_for(reported, further) == reported.len(),
{
    if let Some((file, start)) = batch::start_of(further) {
        assert(about(further, file));
    }
}

// -- what a check tells -----------------------------------------------------------------

/// The entry of a diagnostic in a response: none for a reveal.
pub open spec fn told(reported: Reported) -> Option<EntryView> {
    if reported.diagnostic.id is RevealedType {
        None
    } else {
        diagnostics::converted(reported.diagnostic, Seq::empty())
    }
}

/// Two entries agree in file, line and rule.
pub open spec fn alike(a: EntryView, b: EntryView) -> bool {
    a.file == b.file && a.start.line == b.start.line && a.rule == b.rule
}

/// A response tells the entries of all diagnostics in their order, and keeps all reveals.
pub proof fn law_checks_tell_everything(reported: Seq<Reported>, n: int)
    requires
        0 <= n <= reported.len(),
    ensures
        batch::entries_in(reported, n) == tree::gathered(
            reported.take(n),
            |one: Reported| told(one),
        ),
        batch::reveals_in(reported, n) == tree::gathered(
            reported.take(n),
            |one: Reported| diagnostics::reveal_of(one.diagnostic, one.owners@),
        ),
    decreases n,
{
    if n > 0 {
        law_checks_tell_everything(reported, n - 1);
        assert(reported.take(n).drop_last() =~= reported.take(n - 1));
        assert(reported.take(n).last() == reported[n - 1]);
    }
}

/// A world adds the entries, in their order, that agree with none of the base in file, line
/// and rule.
pub proof fn law_worlds_add_what_is_new(base: Seq<EntryView>, reported: Seq<Reported>, n: int)
    requires
        0 <= n <= reported.len(),
        forall|i: int| 0 <= i < base.len() ==> (#[trigger] base[i]).rule is Some,
    ensures
        batch::added_in(base, reported, n) == tree::gathered(
            reported.take(n),
            |one: Reported|
                match told(one) {
                    Some(entry) => if exists|i: int|
                        0 <= i < base.len() && alike(#[trigger] base[i], entry) {
                        None
                    } else {
                        Some(entry)
                    },
                    None => None,
                },
        ),
    decreases n,
{
    if n > 0 {
        law_worlds_add_what_is_new(base, reported, n - 1);
        assert(reported.take(n).drop_last() =~= reported.take(n - 1));
        let last = reported[n - 1];
        assert(reported.take(n).last() == last);
        if let Some(entry) = told(last) {
            assert(batch::known(base, entry) == exists|i: int|
                0 <= i < base.len() && alike(#[trigger] base[i], entry)) by {
                if batch::known(base, entry) {
                    let i = choose|i: int|
                        0 <= i < base.len() && diagnostics::key_of(#[trigger] base[i])
                            == diagnostics::key_of(entry);
                    assert(alike(base[i], entry));
                }
                if exists|i: int| 0 <= i < base.len() && alike(#[trigger] base[i], entry) {
                    let i = choose|i: int|
                        0 <= i < base.len() && alike(#[trigger] base[i], entry);
                    assert(diagnostics::key_of(base[i]) == diagnostics::key_of(entry));
                }
            }
        }
    }
}

// -- answers ----------------------------------------------------------------------------

/// The last reveal on the line of a query shows its type; without one there is none.
pub proof fn law_the_last_reveal_shows(reveals: Seq<RevealView>, site: Site, at: int)
    ensures
        (0 <= at < reveals.len() && reveals[at].file == site.file && reveals[at].line == site.line
            && forall|i: int|
            at < i < reveals.len() ==> (#[trigger] reveals[i]).file != site.file || reveals[i].line
                != site.line) ==> {
            &&& batch::revealed_at(reveals, Some(site), reveals.len() as int) == Some(
                reveals[at].text,
            )
            &&& batch::last_reveal(reveals, Some(site), reveals.len() as int) == at + 1
        },
        (forall|i: int|
            0 <= i < reveals.len() ==> (#[trigger] reveals[i]).file != site.file || reveals[i].line
                != site.line) ==> {
            &&& batch::revealed_at(reveals, Some(site), reveals.len() as int) is None
            &&& batch::last_reveal(reveals, Some(site), reveals.len() as int) == 0
        },
        batch::revealed_at(reveals, None, reveals.len() as int) is None,
{
    lemma_shows(reveals, site, reveals.len() as int, at);
}

proof fn lemma_shows(reveals: Seq<RevealView>, site: Site, n: int, at: int)
    requires
        0 <= n <= reveals.len(),
    ensures
        (0 <= at < n && reveals[at].file == site.file && reveals[at].line == site.line
            && forall|i: int|
            at < i < n ==> (#[trigger] reveals[i]).file != site.file || reveals[i].line
                != site.line) ==> batch::revealed_at(reveals, Some(site), n) == Some(
            reveals[at].text,
        ) && batch::last_reveal(reveals, Some(site), n) == at + 1,
        (forall|i: int|
            0 <= i < n ==> (#[trigger] reveals[i]).file != site.file || reveals[i].line
                != site.line) ==> batch::revealed_at(reveals, Some(site), n) is None
            && batch::last_reveal(reveals, Some(site), n) == 0,
        batch::revealed_at(reveals, None, n) is None,
    decreases n,
{
    if n > 0 {
        lemma_shows(reveals, site, n - 1, at);
    }
}

/// A query whose file the project does not have is answered with an error that names it;
/// an expression with the type that its reveal shows; a span with the type there. Without
/// such a type the answer is a miss.
pub proof fn law_answers(run: RunView, at: int)
    requires
        0 <= at < run.request.queries@.len(),
    ensures
        ({
            let query = run.request.queries@[at];
            let given = session::answered(run, at);
            let found = at < run.query_files.len() && run.query_files[at] is Some;
            let shown = batch::revealed_at(run.reveals, run.sites[at], run.reveals.len() as int);
            &&& given.id == query.id@
            &&& !found ==> given.answer == AnswerView::Error(
                "request names a file the project cannot resolve: `"@ + query.file@ + "`"@,
            )
            &&& found && query.expr is Some && shown is Some ==> given.answer == AnswerView::Type(
                shown->Some_0,
            )
            &&& found && query.expr is Some && shown is None ==> given.answer == AnswerView::Miss
            &&& found && query.expr is None && run.spans[at] is Some ==> given.answer
                == AnswerView::Type(run.spans[at]->Some_0)
            &&& found && query.expr is None && run.spans[at] is None ==> given.answer
                == AnswerView::Miss
        }),
{
}

/// Of two answers under one id the one with a type counts; of two types the one at a span;
/// of two types at spans, and of two answers without a type, the later one; of two revealed
/// types the one that was revealed later.
pub proof fn law_which_answer_counts(run: RunView, at: int, other: int)
    requires
        0 <= at < run.request.queries@.len(),
        0 <= other < run.request.queries@.len(),
        run.request.queries@[at].id@ == run.request.queries@[other].id@,
    ensures
        ({
            let one = session::answered(run, at).answer;
            let two = session::answered(run, other).answer;
            let spanned = run.request.queries@[at].expr is None;
            let other_spanned = run.request.queries@[other].expr is None;
            let shown = |i: int|
                batch::last_reveal(run.reveals, run.sites[i], run.reveals.len() as int);
            &&& !(one is Type) && two is Type ==> !session::decisive(run, at)
            &&& two is Type && other_spanned && !spanned ==> !session::decisive(run, at)
            &&& one is Type && two is Type && other_spanned && spanned && at < other
                ==> !session::decisive(run, at)
            &&& !(one is Type) && !(two is Type) && at < other ==> !session::decisive(run, at)
            &&& one is Type && two is Type && !spanned && !other_spanned && shown(at) < shown(other)
                ==> !session::decisive(run, at)
            &&& one is Type && two is Type && !spanned && !other_spanned && shown(at) == shown(
                other,
            ) && at < other ==> !session::decisive(run, at)
        }),
{
    let one = session::answered(run, at).answer;
    let two = session::answered(run, other).answer;
    assert(run.request.queries@[other].id@ == run.request.queries@[at].id@);
    if !session::gives_way(run, at, other) {
        assert(session::rank(run, at).0 >= session::rank(run, other).0);
    }
    if session::decisive(run, at) {
        assert(!session::gives_way(run, at, other));
    }
}

/// A response is complete when the run is done, and not before: it names its version and
/// holds the entries, the answers that count in the order of the request, the worlds and the
/// call edges.
pub proof fn law_responses(run: RunView)
    ensures
        session::responded(run) is Some <==> run.stage is Done,
        session::responded(run) matches Some(response) ==> {
            &&& response.version == "1.1.412-ty-unnecessary-batch"@
            &&& response.diagnostics == run.entries
            &&& response.worlds == run.worlds
            &&& response.call_edges == run.edges
            &&& response.answers == tree::gathered(
                Seq::new(run.request.queries@.len(), |i: int| i),
                |i: int|
                    if session::decisive(run, i) {
                        Some(session::answered(run, i))
                    } else {
                        None
                    },
            )
        },
{
    lemma_answers(run, run.request.queries@.len() as int);
}

proof fn lemma_answers(run: RunView, n: int)
    requires
        0 <= n <= run.request.queries@.len(),
    ensures
        session::decisive_answers(run, n) == tree::gathered(
            Seq::new(n as nat, |i: int| i),
            |i: int|
                if session::decisive(run, i) {
                    Some(session::answered(run, i))
                } else {
                    None
                },
        ),
    decreases n,
{
    if n > 0 {
        lemma_answers(run, n - 1);
        assert(Seq::new(n as nat, |i: int| i).drop_last() =~= Seq::new((n - 1) as nat, |i: int| i));
    }
}

// -- steps ------------------------------------------------------------------------------

/// The query at a position asks for a span in a file that the project has.
pub open spec fn spanned(run: RunView, at: int) -> bool {
    0 <= at < run.request.queries@.len() && run.request.queries@[at].expr is None && at
        < run.query_files.len() && run.query_files[at] is Some
}

/// What is left when no span is: the first world, else the call edges if they are asked for.
pub open spec fn past_the_spans(run: RunView, next: RunView, world: int) -> bool {
    let worlds = run.request.worlds@.len();
    &&& world < worlds ==> next.stage == Stage::World(world as usize)
    &&& world >= worlds && run.request.call_edges ==> next.stage == Stage::Edges
    &&& world >= worlds && !run.request.call_edges ==> next.stage == Stage::Done
}

/// Nothing but the stage and the spans differs.
pub open spec fn same_but_spans(run: RunView, next: RunView) -> bool {
    &&& next.request == run.request
    &&& next.query_files == run.query_files
    &&& next.overlay_files == run.overlay_files
    &&& next.base == run.base
    &&& next.sites == run.sites
    &&& next.entries == run.entries
    &&& next.reveals == run.reveals
    &&& next.worlds == run.worlds
    &&& next.edges == run.edges
}

/// A run goes on to the first span from where it stands; the queries in between have no
/// type. Without a further span it goes past the spans.
pub proof fn law_the_next_span(run: RunView, at: int)
    requires
        run.spans.len() <= run.request.queries@.len(),
    ensures
        ({
            let next = session::to_span(run);
            let first = run.spans.len() as int;
            &&& same_but_spans(run, next)
            &&& forall|i: int| 0 <= i < first ==> next.spans[i] == run.spans[i]
            &&& first <= at && spanned(run, at) && (forall|i: int|
                first <= i < at ==> !#[trigger] spanned(run, i)) ==> {
                &&& next.stage == Stage::Span(at as usize)
                &&& next.spans.len() == at
                &&& forall|i: int| first <= i < at ==> next.spans[i] is None
            }
            &&& (forall|i: int| first <= i ==> !#[trigger] spanned(run, i)) ==> {
                &&& past_the_spans(run, next, 0)
                &&& next.spans.len() == run.request.queries@.len()
                &&& forall|i: int| first <= i < next.spans.len() ==> next.spans[i] is None
            }
        }),
{
    let queries = run.request.queries@;
    let first = run.spans.len() as int;
    session::lemma_next_span(queries, run.query_files, first);
    assert forall|i: int| session::asks_span(queries, run.query_files, i) == spanned(run, i) by {}
    let found = session::next_span(queries, run.query_files, first);
    if found < queries.len() {
        assert(spanned(run, found)) by {
            assert(session::asks_span(queries, run.query_files, found));
        }
    }
    if first <= at && spanned(run, at) && (forall|i: int|
        first <= i < at ==> !#[trigger] spanned(run, i)) {
        assert(session::asks_span(queries, run.query_files, at));
        assert(found == at);
    }
    if forall|i: int| first <= i ==> !#[trigger] spanned(run, i) {
        assert(found == queries.len());
    }
}

/// The sources give the overrides and the sites of the reveals; the base check is next.
pub proof fn law_sources_give_the_base(run: RunView, sources: Vec<String>)
    requires
        run.stage is Sources,
    ensures
        session::stepped(run, Event::Sources(sources)) == Ok::<RunView, RequestErrorView>(
            RunView {
                stage: Stage::Base,
                base: batch::reveal_overrides(
                    run.request.queries@,
                    run.query_files,
                    sources@,
                ),
                sites: batch::sites_of(run.request.queries@, run.query_files, sources@),
                ..run
            },
        ),
{
}

/// The base check gives the entries and the reveals; the spans are next, and each reply is
/// the type of its own span.
pub proof fn law_base_and_spans(run: RunView, reported: Vec<Reported>, shown: Option<String>)
    ensures
        run.stage is Base ==> session::stepped(run, Event::Checked(reported)) == Ok::<
            RunView,
            RequestErrorView,
        >(
            session::to_span(
                RunView {
                    entries: tree::gathered(reported@, |one: Reported| told(one)),
                    reveals: tree::gathered(
                        reported@,
                        |one: Reported| diagnostics::reveal_of(one.diagnostic, one.owners@),
                    ),
                    ..run
                },
            ),
        ),
        run.stage is Span ==> session::stepped(run, Event::SpanType(shown)) == Ok::<
            RunView,
            RequestErrorView,
        >(
            session::to_span(
                RunView {
                    spans: run.spans.push(
                        match shown {
                            Some(shown) => Some(shown@),
                            None => None,
                        },
                    ),
                    ..run
                },
            ),
        ),
{
    law_checks_tell_everything(reported@, reported@.len() as int);
    assert(reported@.take(reported@.len() as int) =~= reported@);
}

/// The check of a world gives what it adds, under its id; the next world follows, then the
/// call edges.
pub proof fn law_worlds_in_order(run: RunView, at: usize, reported: Vec<Reported>)
    requires
        run.stage == Stage::World(at),
        at < run.request.worlds@.len(),
    ensures
        session::stepped(run, Event::Checked(reported)) matches Ok(next) && {
            &&& past_the_spans(run, next, at + 1)
            &&& next.worlds.len() == run.worlds.len() + 1
            &&& next.worlds.drop_last() == run.worlds
            &&& next.worlds.last().id == run.request.worlds@[at as int].id@
            &&& next.worlds.last().added == batch::added_in(
                run.entries,
                reported@,
                reported@.len() as int,
            )
            &&& next.spans == run.spans
            &&& same_but_spans(run, RunView { worlds: run.worlds, ..next })
        },
{
    let count: usize = run.request.worlds.len();
}

/// The call edges are kept as they come, and the run is done. A reply that is not awaited
/// changes nothing.
pub proof fn law_edges_and_other_replies(run: RunView, edges: Vec<session::EdgeEntry>, event: Event)
    ensures
        run.stage is Edges ==> session::stepped(run, Event::Edges(edges)) == Ok::<
            RunView,
            RequestErrorView,
        >(RunView { stage: Stage::Done, edges: edges@, ..run }),
        !(run.stage is Files && event is Resolved) && !(run.stage is Sources && event is Sources)
            && !(run.stage is Base && event is Checked) && !(run.stage is Span && event is SpanType)
            && !(run.stage is World && event is Checked) && !(run.stage is Edges && event is Edges)
            ==> session::stepped(run, event) == Ok::<RunView, RequestErrorView>(run),
{
}

/// A run starts with nothing but its request.
pub proof fn law_runs_start_empty(request: batch::Request)
    ensures
        ({
            let run = session::started(request);
            &&& run.request == request
            &&& run.stage is Files
            &&& run.query_files.len() == 0 && run.overlay_files.len() == 0
            &&& run.base.len() == 0 && run.sites.len() == 0
            &&& run.entries.len() == 0 && run.reveals.len() == 0
            &&& run.spans.len() == 0 && run.worlds.len() == 0 && run.edges.len() == 0
        }),
{
}

// -- actions ----------------------------------------------------------------------------

/// What a run asks for at each stage: the files of all names in order, the texts of the
/// files with reveals, checks, the spans as the queries give them, the call edges.
pub proof fn law_what_a_run_asks_for(run: RunView, action: Action, at: int, w: int)
    requires
        session::does(run, action),
    ensures
        run.stage is Files ==> (action matches Action::Resolve { queries, overlays } && {
            &&& queries@.len() == run.request.queries@.len()
            &&& 0 <= at < queries@.len() ==> queries@[at]@ == run.request.queries@[at].file@
            &&& overlays@.len() == run.request.worlds@.len()
            &&& 0 <= w < overlays@.len() ==> {
                &&& overlays@[w]@.len() == run.request.worlds@[w].overlays@.len()
                &&& 0 <= at < overlays@[w]@.len() ==> overlays@[w]@[at]@
                    == run.request.worlds@[w].overlays@[at].file@
            }
        }),
        run.stage is Sources ==> (action matches Action::Read(files) && files@
            == batch::revealing_files(
            run.request.queries@,
            run.query_files,
            run.request.queries@.len() as int,
        )),
        run.stage is Base || run.stage is World ==> action is Check,
        run.stage matches Stage::Span(own) && spanned(run, own as int)
            && run.request.queries@[own as int].line is Some && run.request.queries@[own
            as int].col_start is Some && run.request.queries@[own as int].col_end is Some ==> (
        action matches Action::Span { file, line, col_start, col_end } && {
            let query = run.request.queries@[run.stage->Span_0 as int];
            &&& Some(file) == run.query_files[run.stage->Span_0 as int]
            &&& Some(line) == query.line
            &&& Some(col_start) == query.col_start
            &&& Some(col_end) == query.col_end
        }),
        run.stage is Edges ==> action is CallEdges,
        run.stage is Done ==> action is Respond,
{
    if run.stage is Files {
        if let Action::Resolve { queries, overlays } = action {
            if 0 <= w < overlays@.len() {
                assert(session::names_of(overlays@[w], run.request.worlds@[w]));
            }
        }
    }
}

// -- overrides --------------------------------------------------------------------------

/// The texts that stand while a run waits: those of the reveals in the base check and for
/// the spans, with those of a world's overlays on top in its check, and none else.
pub proof fn law_what_is_in_force(run: RunView, at: int)
    ensures
        run.stage is Base || run.stage is Span ==> session::in_force(run) == run.base,
        run.stage is Files || run.stage is Sources || run.stage is Edges || run.stage is Done
            ==> session::in_force(run).len() == 0,
        run.stage matches Stage::World(world) ==> {
            let overlays = run.request.worlds@[run.stage->World_0 as int].overlays@;
            let replies = run.overlay_files[run.stage->World_0 as int]@;
            &&& session::in_force(run).len() == run.base.len() + overlays.len()
            &&& session::in_force(run).take(run.base.len() as int) == run.base
            &&& 0 <= at < overlays.len() && run.stage->World_0 < run.overlay_files.len() && at
                < replies.len() && replies[at] is Some ==> session::in_force(run)[run.base.len()
                + at] == (OverrideView {
                file: replies[at]->Some_0,
                content: overlays[at].content@,
            })
        },
{
    if run.stage is World {
        assert(session::in_force(run).take(run.base.len() as int) =~= run.base);
    }
}

/// Of the overrides of a file the last one gives its text; a file without one has none.
pub proof fn law_the_last_override_counts(overrides: Seq<OverrideView>, file: FileId, at: int)
    ensures
        (0 <= at < overrides.len() && overrides[at].file == file && forall|i: int|
            at < i < overrides.len() ==> (#[trigger] overrides[i]).file != file) ==> (
        session::overridden(overrides).contains_key(file) && session::overridden(overrides)[file]
            == overrides[at].content),
        (forall|i: int| 0 <= i < overrides.len() ==> (#[trigger] overrides[i]).file != file)
            ==> !session::overridden(overrides).contains_key(file),
    decreases overrides.len(),
{
    if overrides.len() > 0 {
        let before = overrides.drop_last();
        law_the_last_override_counts(before, file, at);
        assert forall|i: int| 0 <= i < before.len() implies before[i] == overrides[i] by {}
    }
}

/// A change gives its file the text, or takes the text away, and leaves the other files.
pub proof fn law_changes_change_one_file(
    before: Map<FileId, Seq<char>>,
    changes: Seq<ChangeView>,
    last: ChangeView,
    file: FileId,
)
    ensures
        session::changed(before, Seq::empty()) == before,
        ({
            let earlier = session::changed(before, changes);
            let later = session::changed(before, changes.push(last));
            &&& file != last.file ==> later.contains_key(file) == earlier.contains_key(file)
            &&& file != last.file && earlier.contains_key(file) ==> later[file] == earlier[file]
            &&& later.contains_key(last.file) == last.content is Some
            &&& last.content matches Some(content) ==> later[last.file] == content
        }),
{
    assert(changes.push(last).drop_last() =~= changes);
}

} // verus!
