//! The run of one request.

use vstd::prelude::*;

use crate::args;
use crate::batch;
use crate::batch::{
    added_diagnostics, answer_query, base_check, files_to_reveal, find_unresolved, plan_reveals,
    reveal_position, validate, Answer, AnswerView, BatchQuery, Override, OverrideView, Reported,
    Request, RequestError, RequestErrorView, Site, World,
};
use crate::diagnostics;
use crate::diagnostics::{Entry, EntryView, Reveal, RevealView};
use crate::text::same_text;
use crate::types::FileId;

verus! {

// -- the parts of a response ------------------------------------------------------------

/// A definition that a call leads to.
#[derive(Debug)]
pub struct EdgeTarget {
    pub file: String,
    pub line: u32,
}

/// A call edge as it is printed.
#[derive(Debug)]
pub struct EdgeEntry {
    pub file: String,
    pub line: u32,
    pub col: u32,
    pub end_line: u32,
    pub end_col: u32,
    pub targets: Vec<EdgeTarget>,
    pub external: Vec<String>,
}

/// What a world adds to the diagnostics.
#[derive(Debug)]
pub struct WorldResult {
    pub id: String,
    pub added: Vec<Entry>,
}

/// The result of a world by value.
#[verifier::ext_equal]
pub struct WorldView {
    pub id: Seq<char>,
    pub added: Seq<EntryView>,
}

impl View for WorldResult {
    type V = WorldView;

    open spec fn view(&self) -> WorldView {
        WorldView { id: self.id@, added: diagnostics::entries_view(self.added@) }
    }
}

/// The answer to the query with an id.
#[derive(Debug)]
pub struct Answered {
    pub id: String,
    pub answer: Answer,
}

/// An answer with its id by value.
pub struct AnsweredView {
    pub id: Seq<char>,
    pub answer: AnswerView,
}

impl View for Answered {
    type V = AnsweredView;

    open spec fn view(&self) -> AnsweredView {
        AnsweredView { id: self.id@, answer: self.answer@ }
    }
}

/// What a request is answered.
#[derive(Debug)]
pub struct Response {
    pub version: &'static str,
    pub diagnostics: Vec<Entry>,
    /// One answer for each id, in the order of the request.
    pub answers: Vec<Answered>,
    pub worlds: Vec<WorldResult>,
    pub call_edges: Vec<EdgeEntry>,
}

// -- the state of a run -----------------------------------------------------------------

/// What a run waits for.
#[derive(Clone, Copy, PartialEq, Eq, Structural, Debug)]
pub enum Stage {
    /// The files that the names of the request stand for.
    Files,
    /// The texts of the files that get reveals.
    Sources,
    /// The diagnostics of the base check.
    Base,
    /// The type at the span of the query at this position.
    Span(usize),
    /// The diagnostics of the world at this position.
    World(usize),
    /// The call edges.
    Edges,
    /// Nothing: the response is complete.
    Done,
}

/// What the type checker is to do next.
#[derive(Debug)]
pub enum Action {
    /// Resolve the names of the queries, and of the overlays of each world.
    Resolve { queries: Vec<String>, overlays: Vec<Vec<String>> },
    /// Read the texts of the files.
    Read(Vec<FileId>),
    /// Check the project.
    Check,
    /// Infer the type at a span.
    Span { file: FileId, line: usize, col_start: usize, col_end: usize },
    /// Collect the call edges of the project.
    CallEdges,
    /// Print the response.
    Respond,
}

/// What came of an action.
#[derive(Debug)]
pub enum Event {
    Resolved { queries: Vec<Option<FileId>>, overlays: Vec<Vec<Option<FileId>>> },
    Sources(Vec<String>),
    Checked(Vec<Reported>),
    SpanType(Option<String>),
    Edges(Vec<EdgeEntry>),
}

/// A run by value: the request, and what is known so far.
#[verifier::ext_equal]
pub struct RunView {
    pub request: Request,
    pub stage: Stage,
    pub query_files: Seq<Option<FileId>>,
    pub overlay_files: Seq<Vec<Option<FileId>>>,
    /// The overrides of the base check.
    pub base: Seq<OverrideView>,
    pub sites: Seq<Option<Site>>,
    pub entries: Seq<EntryView>,
    pub reveals: Seq<RevealView>,
    /// The types at the spans of the queries so far.
    pub spans: Seq<Option<Seq<char>>>,
    pub worlds: Seq<WorldView>,
    pub edges: Seq<EdgeEntry>,
}

/// A run at its start.
pub open spec fn started(request: Request) -> RunView {
    RunView {
        request,
        stage: Stage::Files,
        query_files: Seq::empty(),
        overlay_files: Seq::empty(),
        base: Seq::empty(),
        sites: Seq::empty(),
        entries: Seq::empty(),
        reveals: Seq::empty(),
        spans: Seq::empty(),
        worlds: Seq::empty(),
        edges: Seq::empty(),
    }
}

/// Whether the query at a position asks for the type at a span of a file there is.
pub open spec fn asks_span(queries: Seq<BatchQuery>, files: Seq<Option<FileId>>, at: int) -> bool {
    0 <= at < queries.len() && queries[at].expr is None && batch::file_at(files, at) is Some
}

/// The first such query from `from` on; the number of queries where there is none.
pub open spec fn next_span(queries: Seq<BatchQuery>, files: Seq<Option<FileId>>, from: int) -> int
    decreases queries.len() - from,
{
    if from < 0 || from >= queries.len() {
        queries.len() as int
    } else if asks_span(queries, files, from) {
        from
    } else {
        next_span(queries, files, from + 1)
    }
}

/// The stage after the worlds.
pub open spec fn edges_stage(request: Request) -> Stage {
    if request.call_edges {
        Stage::Edges
    } else {
        Stage::Done
    }
}

/// The stage in which the worlds from `from` on are left.
pub open spec fn world_stage(request: Request, from: int) -> Stage {
    if from < request.worlds@.len() {
        Stage::World(from as usize)
    } else {
        edges_stage(request)
    }
}

/// The spans up to position `n`: queries that were not asked have no type.
pub open spec fn padded(spans: Seq<Option<Seq<char>>>, n: int) -> Seq<Option<Seq<char>>> {
    spans + Seq::new((n - spans.len()) as nat, |i: int| None::<Seq<char>>)
}

/// A run that goes on to the next span, or to the worlds where no span is left.
pub open spec fn to_span(run: RunView) -> RunView {
    let queries = run.request.queries@;
    let at = next_span(queries, run.query_files, run.spans.len() as int);
    RunView {
        stage: if at < queries.len() {
            Stage::Span(at as usize)
        } else {
            world_stage(run.request, 0)
        },
        spans: padded(run.spans, at),
        ..run
    }
}

/// A run whose names are resolved. A world needs all of its files.
pub open spec fn with_files(
    run: RunView,
    queries: Seq<Option<FileId>>,
    overlays: Seq<Vec<Option<FileId>>>,
) -> Result<RunView, RequestErrorView> {
    let worlds = run.request.worlds@;
    if exists|w: int, o: int| batch::first_unresolved(worlds, overlays, w, o) {
        let (w, o): (int, int) = choose|w: int, o: int|
            batch::first_unresolved(worlds, overlays, w, o);
        Err(RequestErrorView::UnresolvedFile(worlds[w].overlays@[o].file@))
    } else {
        Ok(
            RunView {
                stage: Stage::Sources,
                query_files: queries,
                overlay_files: overlays,
                ..run
            },
        )
    }
}

/// A run whose sources are read.
pub open spec fn with_sources(run: RunView, sources: Seq<String>) -> RunView {
    let queries = run.request.queries@;
    RunView {
        stage: Stage::Base,
        base: batch::reveal_overrides(queries, run.query_files, sources),
        sites: batch::sites_of(queries, run.query_files, sources),
        ..run
    }
}

/// A run whose base check is done.
pub open spec fn with_base(run: RunView, reported: Seq<Reported>) -> RunView {
    to_span(
        RunView {
            entries: batch::entries_in(reported, reported.len() as int),
            reveals: batch::reveals_in(reported, reported.len() as int),
            ..run
        },
    )
}

/// A run with the type at its current span.
pub open spec fn with_span(run: RunView, text: Option<Seq<char>>) -> RunView {
    to_span(RunView { spans: run.spans.push(text), ..run })
}

/// A run with the diagnostics of the world at position `at`.
pub open spec fn with_world(run: RunView, at: int, reported: Seq<Reported>) -> RunView {
    RunView {
        stage: world_stage(run.request, at + 1),
        worlds: run.worlds.push(
            WorldView {
                id: run.request.worlds@[at].id@,
                added: batch::added_in(run.entries, reported, reported.len() as int),
            },
        ),
        ..run
    }
}

/// The run after an event; an event that the run does not wait for changes nothing.
pub open spec fn stepped(run: RunView, event: Event) -> Result<RunView, RequestErrorView> {
    match (run.stage, event) {
        (Stage::Files, Event::Resolved { queries, overlays }) => with_files(
            run,
            queries@,
            overlays@,
        ),
        (Stage::Sources, Event::Sources(sources)) => Ok(with_sources(run, sources@)),
        (Stage::Base, Event::Checked(reported)) => Ok(with_base(run, reported@)),
        (Stage::Span(_), Event::SpanType(text)) => Ok(with_span(run, args::optional_view(text))),
        (Stage::World(at), Event::Checked(reported)) => Ok(
            with_world(run, at as int, reported@),
        ),
        (Stage::Edges, Event::Edges(edges)) => Ok(
            RunView { stage: Stage::Done, edges: edges@, ..run },
        ),
        _ => Ok(run),
    }
}

/// The ids of the first `n` worlds stand in the results.
pub open spec fn world_ids(run: RunView) -> bool {
    forall|i: int|
        0 <= i < run.worlds.len() ==> (#[trigger] run.worlds[i]).id == run.request.worlds@[i].id@
}

/// What holds of every run: it has an answer for each query and a result for each world
/// that it went past.
pub open spec fn run_wf(run: RunView) -> bool {
    let queries = run.request.queries@;
    let worlds = run.request.worlds@;
    &&& batch::first_incomplete(queries, 0) is None
    &&& world_ids(run)
    &&& match run.stage {
        Stage::Files | Stage::Sources | Stage::Base => run.spans.len() == 0 && run.worlds.len()
            == 0,
        Stage::Span(at) => {
            &&& asks_span(queries, run.query_files, at as int)
            &&& run.spans.len() == at
            &&& run.worlds.len() == 0
        },
        Stage::World(at) => {
            &&& at < worlds.len()
            &&& run.spans.len() == queries.len()
            &&& run.worlds.len() == at
        },
        Stage::Edges => {
            &&& run.request.call_edges
            &&& run.spans.len() == queries.len()
            &&& run.worlds.len() == worlds.len()
        },
        Stage::Done => run.spans.len() == queries.len() && run.worlds.len() == worlds.len(),
    }
    &&& !(run.stage is Files || run.stage is Sources) ==> run.sites.len() == queries.len()
    &&& !(run.stage is Files) ==> forall|w: int, o: int| !#[trigger]
        batch::unresolved_at(worlds, run.overlay_files, w, o)
    &&& !(run.stage is Done) || !run.request.call_edges ==> run.edges.len() == 0
}

pub proof fn lemma_next_span(queries: Seq<BatchQuery>, files: Seq<Option<FileId>>, from: int)
    requires
        0 <= from <= queries.len(),
    ensures
        from <= next_span(queries, files, from) <= queries.len(),
        next_span(queries, files, from) < queries.len() ==> asks_span(
            queries,
            files,
            next_span(queries, files, from),
        ),
        forall|i: int|
            from <= i < next_span(queries, files, from) ==> !#[trigger] asks_span(queries, files, i),
    decreases queries.len() - from,
{
    if from < queries.len() && !asks_span(queries, files, from) {
        lemma_next_span(queries, files, from + 1);
    }
}

/// A run stays sound whatever it is told.
pub proof fn law_run_stays_sound(run: RunView, event: Event)
    requires
        run_wf(run),
    ensures
        stepped(run, event) matches Ok(next) ==> run_wf(next) && next.request == run.request,
{
    let queries = run.request.queries@;
    match (run.stage, event) {
        (Stage::Files, Event::Resolved { queries: q, overlays }) => {
            if stepped(run, event) is Ok {
                lemma_all_resolved(run.request.worlds@, overlays@);
            }
        },
        (Stage::Base, Event::Checked(reported)) => {
            lemma_next_span(queries, run.query_files, 0);
            let count: usize = run.request.queries.len();
        },
        (Stage::Span(at), Event::SpanType(text)) => {
            lemma_next_span(queries, run.query_files, at + 1);
            let count: usize = run.request.queries.len();
        },
        (Stage::World(at), Event::Checked(reported)) => {
            let count: usize = run.request.worlds.len();
        },
        _ => {},
    }
}

/// Where no overlay is the first without a file, all have one.
proof fn lemma_all_resolved(worlds: Seq<World>, files: Seq<Vec<Option<FileId>>>)
    requires
        !exists|w: int, o: int| batch::first_unresolved(worlds, files, w, o),
    ensures
        forall|w: int, o: int| !#[trigger] batch::unresolved_at(worlds, files, w, o),
{
    assert forall|w: int, o: int| !#[trigger] batch::unresolved_at(worlds, files, w, o) by {
        if batch::unresolved_at(worlds, files, w, o) {
            lemma_first_unresolved(worlds, files, w, o);
        }
    }
}

/// Below an overlay without a file there is a first one.
proof fn lemma_first_unresolved(
    worlds: Seq<World>,
    files: Seq<Vec<Option<FileId>>>,
    world: int,
    overlay: int,
)
    requires
        batch::unresolved_at(worlds, files, world, overlay),
    ensures
        exists|w: int, o: int| batch::first_unresolved(worlds, files, w, o),
    decreases world, overlay,
{
    if !batch::first_unresolved(worlds, files, world, overlay) {
        let (w, o): (int, int) = choose|w: int, o: int| #[trigger]
            batch::unresolved_at(worlds, files, w, o) && !(world < w || (world == w && overlay
                <= o));
        lemma_first_unresolved(worlds, files, w, o);
    }
}

// -- overrides --------------------------------------------------------------------------

/// The overlays of a world as overrides.
pub open spec fn overlay_overrides(world: World, files: Seq<Option<FileId>>) -> Seq<OverrideView> {
    Seq::new(
        world.overlays@.len(),
        |i: int|
            OverrideView {
                file: batch::file_at(files, i)->Some_0,
                content: world.overlays@[i].content@,
            },
    )
}

/// The overrides that are in force while a run waits: those of the base check for the base
/// check and the spans, in a world its overlays on top of them, and none otherwise. Of two
/// overrides of one file the later counts.
pub open spec fn in_force(run: RunView) -> Seq<OverrideView> {
    match run.stage {
        Stage::Base | Stage::Span(_) => run.base,
        Stage::World(at) => run.base + overlay_overrides(
            run.request.worlds@[at as int],
            batch::world_files(run.overlay_files, at as int),
        ),
        _ => Seq::empty(),
    }
}

/// Before its first check and when it is done, a run overrides nothing: it starts from the
/// project as it is, and leaves it so.
pub proof fn law_no_override_is_left(run: RunView)
    requires
        run.stage is Files || run.stage is Sources || run.stage is Edges || run.stage is Done,
    ensures
        in_force(run).len() == 0,
{
}

/// A world is checked on top of the base overrides alone, whatever the worlds before it
/// were told.
pub proof fn law_worlds_are_isolated(run: RunView, at: int, reported: Seq<Reported>)
    requires
        run_wf(run),
        run.stage == Stage::World(at as usize),
        0 <= at,
        at + 1 < run.request.worlds@.len(),
    ensures
        in_force(with_world(run, at, reported)) == run.base + overlay_overrides(
            run.request.worlds@[at + 1],
            batch::world_files(run.overlay_files, at + 1),
        ),
{
    let count: usize = run.request.worlds.len();
}

/// The texts that overrides give to files.
pub open spec fn overridden(overrides: Seq<OverrideView>) -> Map<FileId, Seq<char>>
    decreases overrides.len(),
{
    if overrides.len() == 0 {
        Map::empty()
    } else {
        overridden(overrides.drop_last()).insert(overrides.last().file, overrides.last().content)
    }
}

/// A change of the text that a file is overridden with.
#[derive(Debug)]
pub struct Change {
    pub file: FileId,
    /// The new text; without one the file has its own text again.
    pub content: Option<String>,
}

/// A change by value.
#[verifier::ext_equal]
pub struct ChangeView {
    pub file: FileId,
    pub content: Option<Seq<char>>,
}

impl View for Change {
    type V = ChangeView;

    open spec fn view(&self) -> ChangeView {
        ChangeView { file: self.file, content: args::optional_view(self.content) }
    }
}

/// The overrides after some changes.
pub open spec fn changed(before: Map<FileId, Seq<char>>, changes: Seq<ChangeView>) -> Map<
    FileId,
    Seq<char>,
>
    decreases changes.len(),
{
    if changes.len() == 0 {
        before
    } else {
        let earlier = changed(before, changes.drop_last());
        let last = changes.last();
        match last.content {
            Some(content) => earlier.insert(last.file, content),
            None => earlier.remove(last.file),
        }
    }
}

/// The changes by value.
pub open spec fn changes_view(changes: Seq<Change>) -> Seq<ChangeView> {
    changes.map_values(|change: Change| change@)
}

/// The changes from overrides of the files `current` to the wanted ones: each of the files
/// gets its own text again, and then the wanted ones theirs.
pub open spec fn changes_for(current: Seq<FileId>, wanted: Seq<OverrideView>) -> Seq<ChangeView> {
    current.map_values(|file: FileId| ChangeView { file, content: None }) + wanted.map_values(
        |o: OverrideView| ChangeView { file: o.file, content: Some(o.content) },
    )
}

/// The changes that lead from overrides of the files `current` to the wanted ones: whatever
/// texts the files had before, exactly the wanted overrides are in force after them.
pub fn override_changes(current: &Vec<FileId>, wanted: &Vec<Override>) -> (changes: Vec<Change>)
    ensures
        changes_view(changes@) == changes_for(current@, batch::overrides_view(wanted@)),
        forall|before: Map<FileId, Seq<char>>|
            (forall|file: FileId| #[trigger]
                before.contains_key(file) ==> current@.contains(file)) ==> #[trigger] changed(
                before,
                changes_view(changes@),
            ) == overridden(batch::overrides_view(wanted@)),
{
    let mut changes: Vec<Change> = Vec::new();
    let ghost views = batch::overrides_view(wanted@);
    let ghost all = changes_for(current@, views);
    let mut i: usize = 0;
    assert(changes_view(changes@) == all.take(0));
    while i < current.len()
        invariant
            i <= current@.len(),
            all == changes_for(current@, views),
            changes_view(changes@) == all.take(i as int),
        decreases current@.len() - i,
    {
        let ghost before = changes@;
        changes.push(Change { file: current[i], content: None });
        assert(changes_view(changes@) == changes_view(before).push(all[i as int]));
        assert(all.take(i + 1) == all.take(i as int).push(all[i as int]));
        i += 1;
    }
    let mut k: usize = 0;
    while k < wanted.len()
        invariant
            k <= wanted@.len(),
            views == batch::overrides_view(wanted@),
            all == changes_for(current@, views),
            changes_view(changes@) == all.take(current@.len() + k),
        decreases wanted@.len() - k,
    {
        let ghost before = changes@;
        let ghost at = current@.len() + k;
        changes.push(
            Change { file: wanted[k].file, content: Some(wanted[k].content.clone()) },
        );
        assert(all[at] == (ChangeView { file: views[k as int].file, content: Some(
            views[k as int].content,
        ) }));
        assert(changes_view(changes@) == changes_view(before).push(all[at]));
        assert(all.take(at + 1) == all.take(at).push(all[at]));
        k += 1;
    }
    proof {
        assert(all.take(current@.len() + k) == all);
        assert forall|before: Map<FileId, Seq<char>>|
            (forall|file: FileId| #[trigger]
                before.contains_key(file) ==> current@.contains(file)) implies #[trigger] changed(
            before,
            changes_view(changes@),
        ) == overridden(views) by {
            law_only_wanted_overrides_stay(before, current@, views);
        }
    }
    changes
}

/// Whatever texts the files of `current` had, after the changes exactly the wanted overrides
/// are in force.
pub proof fn law_only_wanted_overrides_stay(
    before: Map<FileId, Seq<char>>,
    current: Seq<FileId>,
    wanted: Seq<OverrideView>,
)
    requires
        forall|file: FileId| #[trigger] before.contains_key(file) ==> current.contains(file),
    ensures
        changed(before, changes_for(current, wanted)) == overridden(wanted),
    decreases wanted.len(),
{
    let changes = changes_for(current, wanted);
    if wanted.len() == 0 {
        lemma_cleared(before, changes, changes.len() as int);
        assert(changes.take(changes.len() as int) == changes);
        assert forall|file: FileId| !changed(before, changes).contains_key(file) by {
            if before.contains_key(file) {
                let at = current.index_of(file);
                assert(changes[at].file == file);
            }
        }
        assert(changed(before, changes) =~= Map::<FileId, Seq<char>>::empty());
    } else {
        law_only_wanted_overrides_stay(before, current, wanted.drop_last());
        assert(changes.drop_last() =~= changes_for(current, wanted.drop_last()));
        assert(changes.last() == (ChangeView {
            file: wanted.last().file,
            content: Some(wanted.last().content),
        }));
    }
}

/// Changes that take the texts of files away leave the others.
proof fn lemma_cleared(before: Map<FileId, Seq<char>>, cleared: Seq<ChangeView>, n: int)
    requires
        0 <= n <= cleared.len(),
        forall|j: int| 0 <= j < cleared.len() ==> (#[trigger] cleared[j]).content is None,
    ensures
        forall|file: FileId| #[trigger]
            changed(before, cleared.take(n)).contains_key(file) <==> before.contains_key(file)
                && !exists|j: int| 0 <= j < n && (#[trigger] cleared[j]).file == file,
    decreases n,
{
    if n > 0 {
        lemma_cleared(before, cleared, n - 1);
        assert(cleared.take(n).drop_last() == cleared.take(n - 1));
        let last = cleared[n - 1];
        assert(cleared.take(n).last() == last);
        assert forall|file: FileId| #[trigger]
            changed(before, cleared.take(n)).contains_key(file) <==> before.contains_key(file)
                && !exists|j: int| 0 <= j < n && (#[trigger] cleared[j]).file == file by {
            let earlier = changed(before, cleared.take(n - 1));
            assert(changed(before, cleared.take(n)) == earlier.remove(last.file));
            assert(earlier.contains_key(file) <==> before.contains_key(file) && !exists|j: int|
                0 <= j < n - 1 && (#[trigger] cleared[j]).file == file);
        }
    } else {
        assert(cleared.take(0) == Seq::<ChangeView>::empty());
    }
}

// -- the run ----------------------------------------------------------------------------

/// The run of one request.
#[derive(Debug)]
pub struct BatchRun {
    request: Request,
    stage: Stage,
    query_files: Vec<Option<FileId>>,
    overlay_files: Vec<Vec<Option<FileId>>>,
    base: Vec<Override>,
    sites: Vec<Option<Site>>,
    entries: Vec<Entry>,
    reveals: Vec<Reveal>,
    spans: Vec<Option<String>>,
    worlds: Vec<WorldResult>,
    edges: Vec<EdgeEntry>,
}

/// The spans by value.
pub open spec fn spans_view(spans: Seq<Option<String>>) -> Seq<Option<Seq<char>>> {
    spans.map_values(|span: Option<String>| args::optional_view(span))
}

/// The results of worlds by value.
pub open spec fn worlds_view(worlds: Seq<WorldResult>) -> Seq<WorldView> {
    worlds.map_values(|world: WorldResult| world@)
}

impl View for BatchRun {
    type V = RunView;

    closed spec fn view(&self) -> RunView {
        RunView {
            request: self.request,
            stage: self.stage,
            query_files: self.query_files@,
            overlay_files: self.overlay_files@,
            base: batch::overrides_view(self.base@),
            sites: self.sites@,
            entries: diagnostics::entries_view(self.entries@),
            reveals: batch::reveals_view(self.reveals@),
            spans: spans_view(self.spans@),
            worlds: worlds_view(self.worlds@),
            edges: self.edges@,
        }
    }
}

/// The answer to the query at a position.
pub open spec fn answered(run: RunView, at: int) -> AnsweredView {
    let query = run.request.queries@[at];
    AnsweredView {
        id: query.id@,
        answer: batch::answer_of(
            query,
            batch::file_at(run.query_files, at),
            run.sites[at],
            run.reveals,
            run.spans[at],
        ),
    }
}

/// How far the answer at a position counts among those of its id: a type at a span before
/// a revealed type, either before no type; of two that are alike the later one, and among
/// revealed types that of the later reveal.
pub open spec fn rank(run: RunView, at: int) -> (int, int) {
    match answered(run, at).answer {
        AnswerView::Type(_) => if run.request.queries@[at].expr is Some {
            (1, batch::last_reveal(run.reveals, run.sites[at], run.reveals.len() as int))
        } else {
            (2, at)
        },
        _ => (0, at),
    }
}

/// The answer at `at` counts less than the one at `other`.
pub open spec fn gives_way(run: RunView, at: int, other: int) -> bool {
    ||| rank(run, at).0 < rank(run, other).0
    ||| rank(run, at).0 == rank(run, other).0 && rank(run, at).1 < rank(run, other).1
    ||| rank(run, at) == rank(run, other) && at < other
}

/// No answer of the same id counts more than the one at a position.
pub open spec fn decisive(run: RunView, at: int) -> bool {
    let queries = run.request.queries@;
    forall|other: int|
        0 <= other < queries.len() && (#[trigger] queries[other]).id@ == queries[at].id@
            ==> !gives_way(run, at, other)
}

/// The decisive answers among those of the first `n` queries.
pub open spec fn decisive_answers(run: RunView, n: int) -> Seq<AnsweredView>
    decreases n,
{
    if n <= 0 {
        Seq::empty()
    } else if decisive(run, n - 1) {
        decisive_answers(run, n - 1).push(answered(run, n - 1))
    } else {
        decisive_answers(run, n - 1)
    }
}

/// The answers by value.
pub open spec fn answers_view(answers: Seq<Answered>) -> Seq<AnsweredView> {
    answers.map_values(|answered: Answered| answered@)
}

spec fn rank_view(rank: (u8, usize)) -> (int, int) {
    (rank.0 as int, rank.1 as int)
}

/// The response of a run by value.
pub struct ResponseView {
    pub version: Seq<char>,
    pub diagnostics: Seq<EntryView>,
    pub answers: Seq<AnsweredView>,
    pub worlds: Seq<WorldView>,
    pub call_edges: Seq<EdgeEntry>,
}

impl View for Response {
    type V = ResponseView;

    open spec fn view(&self) -> ResponseView {
        ResponseView {
            version: self.version@,
            diagnostics: diagnostics::entries_view(self.diagnostics@),
            answers: answers_view(self.answers@),
            worlds: worlds_view(self.worlds@),
            call_edges: self.call_edges@,
        }
    }
}

/// The response of a run: it has one when it is done.
pub open spec fn responded(run: RunView) -> Option<ResponseView> {
    if run.stage is Done {
        Some(
            ResponseView {
                version: "1.1.412-ty-unnecessary-batch"@,
                diagnostics: run.entries,
                answers: decisive_answers(run, run.request.queries@.len() as int),
                worlds: run.worlds,
                call_edges: run.edges,
            },
        )
    } else {
        None
    }
}

/// What a run does next.
pub open spec fn does(run: RunView, action: Action) -> bool {
    let queries = run.request.queries@;
    let worlds = run.request.worlds@;
    match run.stage {
        Stage::Files => {
            &&& action matches Action::Resolve { queries: names, overlays }
            &&& names@.len() == queries.len()
            &&& forall|i: int|
                0 <= i < names@.len() ==> (#[trigger] names@[i])@ == queries[i].file@
            &&& overlays@.len() == worlds.len()
            &&& forall|w: int|
                0 <= w < worlds.len() ==> names_of(#[trigger] overlays@[w], worlds[w])
        },
        Stage::Sources => {
            &&& action matches Action::Read(files)
            &&& files@ == batch::revealing_files(
                queries,
                run.query_files,
                queries.len() as int,
            )
        },
        Stage::Base | Stage::World(_) => action is Check,
        Stage::Span(at) => action == (Action::Span {
            file: batch::file_at(run.query_files, at as int)->Some_0,
            line: queries[at as int].line->Some_0,
            col_start: queries[at as int].col_start->Some_0,
            col_end: queries[at as int].col_end->Some_0,
        }),
        Stage::Edges => action is CallEdges,
        Stage::Done => action is Respond,
    }
}

/// Whether the names are those of the overlays of a world.
pub open spec fn names_of(names: Vec<String>, world: World) -> bool {
    &&& names@.len() == world.overlays@.len()
    &&& forall|i: int|
        0 <= i < names@.len() ==> (#[trigger] names@[i])@ == world.overlays@[i].file@
}

proof fn lemma_complete(queries: Seq<BatchQuery>, from: int, at: int)
    requires
        0 <= from <= at < queries.len(),
        batch::first_incomplete(queries, from) is None,
    ensures
        batch::complete(queries[at]),
    decreases at - from,
{
    if from < at {
        lemma_complete(queries, from + 1, at);
    }
}

fn find_span(queries: &Vec<BatchQuery>, files: &Vec<Option<FileId>>, from: usize) -> (at: usize)
    requires
        from <= queries@.len(),
    ensures
        at == next_span(queries@, files@, from as int),
{
    let mut at: usize = from;
    while at < queries.len()
        invariant
            from <= at <= queries@.len(),
            next_span(queries@, files@, from as int) == next_span(queries@, files@, at as int),
        decreases queries@.len() - at,
    {
        let known = at < files.len() && files[at].is_some();
        if queries[at].expr.is_none() && known {
            return at;
        }
        at += 1;
    }
    at
}

fn stage_of_worlds(request: &Request, from: usize) -> (stage: Stage)
    ensures
        stage == world_stage(*request, from as int),
{
    if from < request.worlds.len() {
        Stage::World(from)
    } else if request.call_edges {
        Stage::Edges
    } else {
        Stage::Done
    }
}

fn overlay_names(world: &World) -> (names: Vec<String>)
    ensures
        names_of(names, *world),
{
    let mut names: Vec<String> = Vec::new();
    let mut i: usize = 0;
    while i < world.overlays.len()
        invariant
            i <= world.overlays@.len(),
            names@.len() == i,
            forall|j: int| 0 <= j < i ==> (#[trigger] names@[j])@ == world.overlays@[j].file@,
        decreases world.overlays@.len() - i,
    {
        names.push(world.overlays[i].file.clone());
        i += 1;
    }
    names
}

fn copy_overrides(overrides: &Vec<Override>) -> (copy: Vec<Override>)
    ensures
        batch::overrides_view(copy@) == batch::overrides_view(overrides@),
{
    let mut copy: Vec<Override> = Vec::new();
    let mut i: usize = 0;
    while i < overrides.len()
        invariant
            i <= overrides@.len(),
            copy@.len() == i,
            forall|j: int| 0 <= j < i ==> (#[trigger] copy@[j])@ == overrides@[j]@,
        decreases overrides@.len() - i,
    {
        copy.push(
            Override { file: overrides[i].file, content: overrides[i].content.clone() },
        );
        i += 1;
    }
    assert(batch::overrides_view(copy@) =~= batch::overrides_view(overrides@));
    copy
}

/// Goes on to the next span, filling in for the queries that are not asked.
fn pad_spans(queries: &Vec<BatchQuery>, files: &Vec<Option<FileId>>, spans: &mut Vec<Option<String>>) -> (at:
    usize)
    requires
        old(spans)@.len() <= queries@.len(),
    ensures
        at == next_span(queries@, files@, old(spans)@.len() as int),
        spans_view(final(spans)@) == padded(spans_view(old(spans)@), at as int),
{
    let from: usize = spans.len();
    let at = find_span(queries, files, from);
    proof {
        lemma_next_span(queries@, files@, from as int);
    }
    let mut i: usize = from;
    assert(spans_view(spans@) =~= padded(spans_view(spans@), from as int));
    while i < at
        invariant
            from <= i <= at,
            from == old(spans)@.len(),
            spans@.len() == i,
            spans_view(spans@) == padded(spans_view(old(spans)@), i as int),
        decreases at - i,
    {
        let ghost earlier = spans_view(spans@);
        spans.push(None);
        i += 1;
        proof {
            let first = spans_view(old(spans)@);
            assert(spans_view(spans@) =~= earlier.push(None));
            assert(padded(first, i as int) =~= padded(first, i - 1).push(None));
        }
    }
    at
}

impl BatchRun {
    #[verifier::type_invariant]
    spec fn inv(self) -> bool {
        run_wf(self@)
    }

    /// Starts the run of a request. Whatever was asked before has no part in it.
    pub fn start(request: Request) -> (run: Result<BatchRun, RequestError>)
        ensures
            match batch::first_incomplete(request.queries@, 0) {
                None => run matches Ok(run) && run@ == started(request),
                Some(at) => run matches Err(error) && error@ == RequestErrorView::IncompleteSpan(
                    request.queries@[at].id@,
                ),
            },
    {
        match validate(&request.queries) {
            Err(error) => Err(error),
            Ok(_) => {
                let run = BatchRun {
                    request,
                    stage: Stage::Files,
                    query_files: Vec::new(),
                    overlay_files: Vec::new(),
                    base: Vec::new(),
                    sites: Vec::new(),
                    entries: Vec::new(),
                    reveals: Vec::new(),
                    spans: Vec::new(),
                    worlds: Vec::new(),
                    edges: Vec::new(),
                };
                assert(run@ =~= started(request));
                Ok(run)
            },
        }
    }

    /// What the type checker is to do next, with `overrides` in force.
    pub fn action(&self) -> (action: Action)
        ensures
            does(self@, action),
    {
        proof {
            use_type_invariant(self);
        }
        match self.stage {
            Stage::Files => {
                let queries = &self.request.queries;
                let mut names: Vec<String> = Vec::new();
                let mut i: usize = 0;
                while i < queries.len()
                    invariant
                        i <= queries@.len(),
                        names@.len() == i,
                        forall|j: int|
                            0 <= j < i ==> (#[trigger] names@[j])@ == queries@[j].file@,
                    decreases queries@.len() - i,
                {
                    names.push(queries[i].file.clone());
                    i += 1;
                }
                let worlds = &self.request.worlds;
                let mut overlays: Vec<Vec<String>> = Vec::new();
                let mut w: usize = 0;
                while w < worlds.len()
                    invariant
                        w <= worlds@.len(),
                        overlays@.len() == w,
                        forall|j: int|
                            0 <= j < w ==> names_of(#[trigger] overlays@[j], worlds@[j]),
                    decreases worlds@.len() - w,
                {
                    overlays.push(overlay_names(&worlds[w]));
                    w += 1;
                }
                Action::Resolve { queries: names, overlays }
            },
            Stage::Sources => Action::Read(
                files_to_reveal(&self.request.queries, &self.query_files),
            ),
            Stage::Base | Stage::World(_) => Action::Check,
            Stage::Span(at) => {
                proof {
                    lemma_complete(self.request.queries@, 0, at as int);
                }
                let query = &self.request.queries[at];
                Action::Span {
                    file: self.query_files[at].unwrap(),
                    line: query.line.unwrap(),
                    col_start: query.col_start.unwrap(),
                    col_end: query.col_end.unwrap(),
                }
            },
            Stage::Edges => Action::CallEdges,
            Stage::Done => Action::Respond,
        }
    }

    /// The overrides that are in force for the next action. Of two overrides of one file
    /// the later counts.
    pub fn overrides(&self) -> (overrides: Vec<Override>)
        ensures
            batch::overrides_view(overrides@) == in_force(self@),
    {
        proof {
            use_type_invariant(self);
        }
        match self.stage {
            Stage::Base | Stage::Span(_) => copy_overrides(&self.base),
            Stage::World(at) => {
                let mut overrides = copy_overrides(&self.base);
                let world = &self.request.worlds[at];
                let ghost files = batch::world_files(self.overlay_files@, at as int);
                let ghost added = overlay_overrides(*world, files);
                let mut i: usize = 0;
                proof {
                    assert(batch::overrides_view(overrides@) =~= self@.base + added.take(0));
                    let run = self@;
                    assert forall|w: int, o: int| !#[trigger]
                        batch::unresolved_at(self.request.worlds@, self.overlay_files@, w, o) by {
                        assert(!batch::unresolved_at(run.request.worlds@, run.overlay_files, w, o));
                    }
                }
                while i < world.overlays.len()
                    invariant
                        i <= world.overlays@.len(),
                        at < self.request.worlds@.len(),
                        *world == self.request.worlds@[at as int],
                        files == batch::world_files(self.overlay_files@, at as int),
                        added == overlay_overrides(*world, files),
                        forall|w: int, o: int| !#[trigger]
                            batch::unresolved_at(
                                self.request.worlds@,
                                self.overlay_files@,
                                w,
                                o,
                            ),
                        batch::overrides_view(overrides@) == self@.base + added.take(i as int),
                    decreases world.overlays@.len() - i,
                {
                    assert(!batch::unresolved_at(
                        self.request.worlds@,
                        self.overlay_files@,
                        at as int,
                        i as int,
                    ));
                    let file = self.overlay_files[at][i].unwrap();
                    let ghost before = batch::overrides_view(overrides@);
                    overrides.push(Override { file, content: world.overlays[i].content.clone() });
                    proof {
                        assert(batch::overrides_view(overrides@) =~= before.push(added[i as int]));
                        assert(added.take(i + 1) =~= added.take(i as int).push(added[i as int]));
                    }
                    i += 1;
                }
                assert(added.take(i as int) == added);
                overrides
            },
            _ => Vec::new(),
        }
    }

    /// Takes in what came of the last action.
    pub fn advance(self, event: Event) -> (run: Result<BatchRun, RequestError>)
        ensures
            match stepped(self@, event) {
                Ok(next) => run matches Ok(run) && run@ == next,
                Err(error) => run matches Err(own) && own@ == error,
            },
    {
        proof {
            use_type_invariant(&self);
            law_run_stays_sound(self@, event);
        }
        let ghost before = self@;
        match (self.stage, event) {
            (Stage::Files, Event::Resolved { queries, overlays }) => {
                if let Some((w, o)) = find_unresolved(&self.request.worlds, &overlays) {
                    proof {
                        lemma_first_unique(self.request.worlds@, overlays@, w as int, o as int);
                    }
                    let name = self.request.worlds[w].overlays[o].file.clone();
                    return Err(RequestError::UnresolvedFile(name));
                }
                Ok(
                    BatchRun {
                        stage: Stage::Sources,
                        query_files: queries,
                        overlay_files: overlays,
                        ..self
                    },
                )
            },
            (Stage::Sources, Event::Sources(sources)) => {
                let plan = plan_reveals(&self.request.queries, &self.query_files, &sources);
                Ok(
                    BatchRun {
                        stage: Stage::Base,
                        base: plan.overrides,
                        sites: plan.sites,
                        ..self
                    },
                )
            },
            (Stage::Base, Event::Checked(reported)) => {
                let base = base_check(&reported);
                let mut spans = self.spans;
                let at = pad_spans(&self.request.queries, &self.query_files, &mut spans);
                let stage = if at < self.request.queries.len() {
                    Stage::Span(at)
                } else {
                    stage_of_worlds(&self.request, 0)
                };
                Ok(
                    BatchRun {
                        stage,
                        entries: base.entries,
                        reveals: base.reveals,
                        spans,
                        ..self
                    },
                )
            },
            (Stage::Span(_), Event::SpanType(text)) => {
                let mut spans = self.spans;
                spans.push(text);
                assert(spans_view(spans@) =~= before.spans.push(args::optional_view(text)));
                let at = pad_spans(&self.request.queries, &self.query_files, &mut spans);
                let stage = if at < self.request.queries.len() {
                    Stage::Span(at)
                } else {
                    stage_of_worlds(&self.request, 0)
                };
                Ok(BatchRun { stage, spans, ..self })
            },
            (Stage::World(at), Event::Checked(reported)) => {
                let added = added_diagnostics(&self.entries, &reported);
                let id = self.request.worlds[at].id.clone();
                let mut worlds = self.worlds;
                let result = WorldResult { id, added };
                worlds.push(result);
                assert(worlds_view(worlds@) =~= before.worlds.push(result@));
                let count: usize = self.request.worlds.len();
                assert(at < count);
                let stage = stage_of_worlds(&self.request, at + 1);
                Ok(BatchRun { stage, worlds, ..self })
            },
            (Stage::Edges, Event::Edges(edges)) => Ok(
                BatchRun { stage: Stage::Done, edges, ..self },
            ),
            _ => Ok(self),
        }
    }

    /// Answers the query at a position.
    fn answer_at(&self, at: usize) -> (answer: Answered)
        requires
            at < self@.request.queries@.len(),
            at < self@.sites.len(),
            at < self@.spans.len(),
        ensures
            answer@ == answered(self@, at as int),
    {
        let file = if at < self.query_files.len() {
            self.query_files[at]
        } else {
            None
        };
        let query = &self.request.queries[at];
        let answer = answer_query(query, file, self.sites[at], &self.reveals, &self.spans[at]);
        Answered { id: query.id.clone(), answer }
    }

    /// How far an answer counts among those of its id.
    fn rank_of(&self, answer: &Answered, at: usize) -> (position: (u8, usize))
        requires
            at < self@.request.queries@.len(),
            at < self@.sites.len(),
            answer@ == answered(self@, at as int),
        ensures
            rank_view(position) == rank(self@, at as int),
    {
        match &answer.answer {
            Answer::Type(_) => if self.request.queries[at].expr.is_some() {
                (1, reveal_position(&self.reveals, self.sites[at]))
            } else {
                (2, at)
            },
            _ => (0, at),
        }
    }

    /// Does no answer of the same id count more than the one at a position?
    fn is_decisive(&self, ranks: &Vec<(u8, usize)>, at: usize) -> (answer: bool)
        requires
            at < ranks@.len(),
            ranks@.len() == self@.request.queries@.len(),
            forall|j: int|
                0 <= j < ranks@.len() ==> rank_view(#[trigger] ranks@[j]) == rank(self@, j),
        ensures
            answer == decisive(self@, at as int),
    {
        let queries = &self.request.queries;
        let own = ranks[at];
        let mut other: usize = 0;
        while other < queries.len()
            invariant
                other <= queries@.len(),
                at < queries@.len(),
                *queries == self@.request.queries,
                own == ranks@[at as int],
                ranks@.len() == queries@.len(),
                forall|j: int|
                    0 <= j < ranks@.len() ==> rank_view(#[trigger] ranks@[j]) == rank(self@, j),
                forall|j: int|
                    0 <= j < other && (#[trigger] queries@[j]).id@ == queries@[at as int].id@
                        ==> !gives_way(self@, at as int, j),
            decreases queries@.len() - other,
        {
            let rival = ranks[other];
            assert(rank_view(ranks@[other as int]) == rank(self@, other as int));
            assert(rank_view(ranks@[at as int]) == rank(self@, at as int));
            if same_text(queries[other].id.as_str(), queries[at].id.as_str()) && (own.0 < rival.0
                || (own.0 == rival.0 && (own.1 < rival.1 || (own.1 == rival.1 && at < other)))) {
                assert(gives_way(self@, at as int, other as int));
                assert(self@.request.queries@[other as int].id@ == queries@[at as int].id@);
                return false;
            }
            other += 1;
        }
        true
    }

    /// The response of a run that is done.
    pub fn respond(self) -> (response: Option<Response>)
        ensures
            match response {
                None => responded(self@) is None,
                Some(response) => responded(self@) == Some(response@),
            },
    {
        proof {
            use_type_invariant(&self);
        }
        match self.stage {
            Stage::Done => {},
            _ => {
                return None;
            },
        }
        let n: usize = self.request.queries.len();
        let mut ranks: Vec<(u8, usize)> = Vec::new();
        let mut i: usize = 0;
        while i < n
            invariant
                i <= n,
                n == self@.request.queries@.len(),
                self@.sites.len() == n,
                self@.spans.len() == n,
                ranks@.len() == i,
                forall|j: int| 0 <= j < i ==> rank_view(#[trigger] ranks@[j]) == rank(self@, j),
            decreases n - i,
        {
            let answer = self.answer_at(i);
            let rank = self.rank_of(&answer, i);
            ranks.push(rank);
            i += 1;
        }
        let mut answers: Vec<Answered> = Vec::new();
        let mut at: usize = 0;
        assert(answers_view(answers@) == decisive_answers(self@, 0));
        while at < n
            invariant
                at <= n,
                n == self@.request.queries@.len(),
                self@.sites.len() == n,
                self@.spans.len() == n,
                ranks@.len() == n,
                forall|j: int| 0 <= j < n ==> rank_view(#[trigger] ranks@[j]) == rank(self@, j),
                answers_view(answers@) == decisive_answers(self@, at as int),
            decreases n - at,
        {
            if self.is_decisive(&ranks, at) {
                let ghost before = answers@;
                let answer = self.answer_at(at);
                answers.push(answer);
                assert(answers_view(answers@) == answers_view(before).push(answer@));
            }
            at += 1;
        }
        Some(
            Response {
                version: "1.1.412-ty-unnecessary-batch",
                diagnostics: self.entries,
                answers,
                worlds: self.worlds,
                call_edges: self.edges,
            },
        )
    }
}

proof fn lemma_first_unique(
    worlds: Seq<World>,
    files: Seq<Vec<Option<FileId>>>,
    world: int,
    overlay: int,
)
    requires
        batch::first_unresolved(worlds, files, world, overlay),
    ensures
        forall|w: int, o: int|
            batch::first_unresolved(worlds, files, w, o) ==> w == world && o == overlay,
{
    assert forall|w: int, o: int| batch::first_unresolved(worlds, files, w, o) implies w == world
        && o == overlay by {
        assert(batch::unresolved_at(worlds, files, w, o));
        assert(batch::unresolved_at(worlds, files, world, overlay));
    }
}

} // verus!
