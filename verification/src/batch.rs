//! The batch protocol: what one request asks of the type checker, and what it is answered.
//!
//! A request moves through a [`BatchRun`]: `action` says what the type checker is to do
//! next, and `advance` takes in what came of it. Everything a run depends on is the
//! request and these replies; which files are overridden while the type checker works is
//! part of each action, so nothing of one world or request is left for the next.

use vstd::prelude::*;
use vstd::string::*;

use crate::args;
use crate::diagnostics;
use crate::diagnostics::{
    convert_lint, entry_key, reveal_answer, Diagnostic, DiagnosticId, Entry, EntryKey, EntryView,
    Reveal, RevealView,
};
use crate::display::SelfOwner;
use crate::reveals;
use crate::reveals::append_reveals;
use crate::text;
use crate::text::{chars_of, is_less, push_text, string_of};
use crate::types::FileId;

verus! {

// -- requests ---------------------------------------------------------------------------

/// A question for the type of an expression: by its text, which is evaluated at the end of
/// the file, or by a span, whose line counts from one and whose columns are bytes.
#[derive(Debug)]
pub struct BatchQuery {
    pub id: String,
    pub file: String,
    pub line: Option<usize>,
    pub col_start: Option<usize>,
    pub col_end: Option<usize>,
    pub expr: Option<String>,
}

/// Another text for a file.
#[derive(Debug)]
pub struct Overlay {
    pub file: String,
    pub content: String,
}

/// A variant of the project that is checked for diagnostics it adds.
#[derive(Debug)]
pub struct World {
    pub id: String,
    pub overlays: Vec<Overlay>,
}

#[derive(Debug)]
pub struct Request {
    pub queries: Vec<BatchQuery>,
    pub worlds: Vec<World>,
    pub call_edges: bool,
}

/// Why a request is refused as a whole.
#[derive(Debug)]
pub enum RequestError {
    /// The query with this id has neither an expression nor a complete span.
    IncompleteSpan(String),
    /// The project has no file of this name.
    UnresolvedFile(String),
}

/// An error by value.
pub enum RequestErrorView {
    IncompleteSpan(Seq<char>),
    UnresolvedFile(Seq<char>),
}

impl View for RequestError {
    type V = RequestErrorView;

    open spec fn view(&self) -> RequestErrorView {
        match *self {
            RequestError::IncompleteSpan(id) => RequestErrorView::IncompleteSpan(id@),
            RequestError::UnresolvedFile(name) => RequestErrorView::UnresolvedFile(name@),
        }
    }
}

/// What is said of a file that the project does not have.
pub open spec fn unresolved_text(name: Seq<char>) -> Seq<char> {
    "request names a file the project cannot resolve: `"@ + name + "`"@
}

fn unresolved_message(name: &str) -> (message: String)
    ensures
        message@ == unresolved_text(name@),
{
    let mut text: Vec<char> = Vec::new();
    push_text(&mut text, "request names a file the project cannot resolve: `");
    push_text(&mut text, name);
    push_text(&mut text, "`");
    assert(text@ =~= unresolved_text(name@));
    string_of(&text)
}

impl RequestError {
    pub fn message(&self) -> (message: String)
        ensures
            message@ == match self@ {
                RequestErrorView::IncompleteSpan(id) => "query `"@ + id
                    + "` has neither expr nor a complete line/col span"@,
                RequestErrorView::UnresolvedFile(name) => unresolved_text(name),
            },
    {
        match self {
            RequestError::IncompleteSpan(id) => {
                let mut text: Vec<char> = Vec::new();
                push_text(&mut text, "query `");
                push_text(&mut text, id.as_str());
                push_text(&mut text, "` has neither expr nor a complete line/col span");
                string_of(&text)
            },
            RequestError::UnresolvedFile(name) => unresolved_message(name.as_str()),
        }
    }
}

/// Whether a query says what it asks for.
pub open spec fn complete(query: BatchQuery) -> bool {
    query.expr is Some || (query.line is Some && query.col_start is Some && query.col_end is Some)
}

/// The first query from `from` on that does not say what it asks for.
pub open spec fn first_incomplete(queries: Seq<BatchQuery>, from: int) -> Option<int>
    decreases queries.len() - from,
{
    if from < 0 || from >= queries.len() {
        None
    } else if !complete(queries[from]) {
        Some(from)
    } else {
        first_incomplete(queries, from + 1)
    }
}

/// Refuses a request with a query that does not say what it asks for.
pub fn validate(queries: &Vec<BatchQuery>) -> (outcome: Result<(), RequestError>)
    ensures
        match first_incomplete(queries@, 0) {
            None => outcome is Ok,
            Some(at) => outcome matches Err(error) && error@
                == RequestErrorView::IncompleteSpan(queries@[at].id@),
        },
{
    let mut i: usize = 0;
    while i < queries.len()
        invariant
            i <= queries@.len(),
            first_incomplete(queries@, 0) == first_incomplete(queries@, i as int),
        decreases queries@.len() - i,
    {
        let query = &queries[i];
        let spanned = query.line.is_some() && query.col_start.is_some() && query.col_end.is_some();
        if query.expr.is_none() && !spanned {
            return Err(RequestError::IncompleteSpan(query.id.clone()));
        }
        i += 1;
    }
    Ok(())
}

// -- files ------------------------------------------------------------------------------

/// The file that a name was resolved to; a name without a reply has none.
pub open spec fn file_at(files: Seq<Option<FileId>>, at: int) -> Option<FileId> {
    if 0 <= at < files.len() {
        files[at]
    } else {
        None
    }
}

fn file_of(files: &Vec<Option<FileId>>, at: usize) -> (file: Option<FileId>)
    ensures
        file == file_at(files@, at as int),
{
    if at < files.len() {
        files[at]
    } else {
        None
    }
}

/// The replies for the names of one world.
pub open spec fn world_files(files: Seq<Vec<Option<FileId>>>, world: int) -> Seq<Option<FileId>> {
    if 0 <= world < files.len() {
        files[world]@
    } else {
        Seq::empty()
    }
}

/// An overlay whose name has no file: the world and the position in it.
pub open spec fn unresolved_at(
    worlds: Seq<World>,
    files: Seq<Vec<Option<FileId>>>,
    world: int,
    overlay: int,
) -> bool {
    &&& 0 <= world < worlds.len()
    &&& 0 <= overlay < worlds[world].overlays@.len()
    &&& file_at(world_files(files, world), overlay) is None
}

/// The first such overlay.
pub open spec fn first_unresolved(
    worlds: Seq<World>,
    files: Seq<Vec<Option<FileId>>>,
    world: int,
    overlay: int,
) -> bool {
    &&& unresolved_at(worlds, files, world, overlay)
    &&& forall|w: int, o: int| #[trigger]
        unresolved_at(worlds, files, w, o) ==> world < w || (world == w && overlay <= o)
}

/// Searches for the first overlay whose name has no file.
pub fn find_unresolved(worlds: &Vec<World>, files: &Vec<Vec<Option<FileId>>>) -> (found: Option<
    (usize, usize),
>)
    ensures
        match found {
            Some((world, overlay)) => first_unresolved(
                worlds@,
                files@,
                world as int,
                overlay as int,
            ),
            None => forall|w: int, o: int| !#[trigger] unresolved_at(worlds@, files@, w, o),
        },
{
    let mut i: usize = 0;
    while i < worlds.len()
        invariant
            i <= worlds@.len(),
            forall|w: int, o: int| w < i ==> !#[trigger] unresolved_at(worlds@, files@, w, o),
        decreases worlds@.len() - i,
    {
        let overlays = &worlds[i].overlays;
        let mut j: usize = 0;
        while j < overlays.len()
            invariant
                i < worlds@.len(),
                *overlays == worlds@[i as int].overlays,
                j <= overlays@.len(),
                forall|w: int, o: int|
                    w < i || (w == i && o < j) ==> !#[trigger] unresolved_at(
                        worlds@,
                        files@,
                        w,
                        o,
                    ),
            decreases overlays@.len() - j,
        {
            let file = if i < files.len() {
                file_of(&files[i], j)
            } else {
                None
            };
            if file.is_none() {
                assert(unresolved_at(worlds@, files@, i as int, j as int));
                return Some((i, j));
            }
            j += 1;
        }
        i += 1;
    }
    None
}

// -- reveals ----------------------------------------------------------------------------

/// The file of an expression query.
pub open spec fn expr_file(
    queries: Seq<BatchQuery>,
    files: Seq<Option<FileId>>,
    at: int,
) -> Option<FileId> {
    if 0 <= at < queries.len() && queries[at].expr is Some {
        file_at(files, at)
    } else {
        None
    }
}

/// Reveals are appended in the order of the file names, those for one name in the order of
/// the request.
pub open spec fn revealed_before(queries: Seq<BatchQuery>, i: int, j: int) -> bool {
    ||| text::less(queries[i].file@, queries[j].file@)
    ||| queries[i].file@ == queries[j].file@ && i < j
}

/// Where among the first `p` positions of `order` the query at `at` goes: behind the last
/// one whose file name is not greater.
pub open spec fn slot_in(queries: Seq<BatchQuery>, order: Seq<int>, at: int, p: int) -> int
    decreases p,
{
    if p > 0 && text::less(queries[at].file@, queries[order[p - 1]].file@) {
        slot_in(queries, order, at, p - 1)
    } else {
        p
    }
}

/// The positions of the first `n` queries in the order of their reveals.
pub open spec fn turns(queries: Seq<BatchQuery>, n: int) -> Seq<int>
    decreases n,
{
    if n <= 0 {
        Seq::empty()
    } else {
        let before = turns(queries, n - 1);
        before.insert(slot_in(queries, before, n - 1, before.len() as int), n - 1)
    }
}

/// The position of the query whose turn comes at `k`.
pub open spec fn turn(queries: Seq<BatchQuery>, k: int) -> int {
    turns(queries, queries.len() as int)[k]
}

/// When the turn of the query at `at` comes.
pub open spec fn turn_of(queries: Seq<BatchQuery>, at: int) -> int {
    turns(queries, queries.len() as int).index_of(at)
}

proof fn lemma_slot(queries: Seq<BatchQuery>, order: Seq<int>, at: int, p: int)
    requires
        0 <= p <= order.len(),
    ensures
        0 <= slot_in(queries, order, at, p) <= p,
        forall|k: int|
            slot_in(queries, order, at, p) <= k < p ==> text::less(
                queries[at].file@,
                queries[#[trigger] order[k]].file@,
            ),
        slot_in(queries, order, at, p) > 0 ==> !text::less(
            queries[at].file@,
            queries[order[slot_in(queries, order, at, p) - 1]].file@,
        ),
    decreases p,
{
    if p > 0 && text::less(queries[at].file@, queries[order[p - 1]].file@) {
        lemma_slot(queries, order, at, p - 1);
    }
}

/// Every query has one turn, and the turns come in the order of the file names and, for one
/// name, in the order of the request.
pub proof fn law_reveals_go_by_file_name(queries: Seq<BatchQuery>, n: int)
    requires
        0 <= n <= queries.len(),
    ensures
        turns(queries, n).len() == n,
        forall|k: int| 0 <= k < n ==> 0 <= #[trigger] turns(queries, n)[k] < n,
        forall|at: int| 0 <= at < n ==> #[trigger] turns(queries, n).contains(at),
        forall|k: int, l: int|
            0 <= k < l < n ==> revealed_before(
                queries,
                #[trigger] turns(queries, n)[k],
                #[trigger] turns(queries, n)[l],
            ),
        turns(queries, n).no_duplicates(),
    decreases n,
{
    if n > 0 {
        law_reveals_go_by_file_name(queries, n - 1);
        let before = turns(queries, n - 1);
        let order = turns(queries, n);
        let own = n - 1;
        let slot = slot_in(queries, before, own, before.len() as int);
        lemma_slot(queries, before, own, before.len() as int);
        assert forall|at: int| 0 <= at < n implies #[trigger] order.contains(at) by {
            if at < own {
                assert(before.contains(at));
                let k = before.index_of(at);
                if k < slot {
                    assert(order[k] == at);
                } else {
                    assert(order[k + 1] == at);
                }
            } else {
                assert(order[slot] == own);
            }
        }
        assert forall|k: int| 0 <= k < slot implies revealed_before(
            queries,
            #[trigger] before[k],
            own,
        ) by {
            let last = before[slot - 1];
            text::lemma_less_total(queries[last].file@, queries[own].file@, 0);
            if k < slot - 1 {
                assert(revealed_before(queries, before[k], last));
                if text::less(queries[before[k]].file@, queries[last].file@) && text::less(
                    queries[last].file@,
                    queries[own].file@,
                ) {
                    text::lemma_less_transitive(
                        queries[before[k]].file@,
                        queries[last].file@,
                        queries[own].file@,
                        0,
                    );
                }
            }
        }
        assert forall|k: int, l: int| 0 <= k < l < n implies revealed_before(
            queries,
            #[trigger] order[k],
            #[trigger] order[l],
        ) by {
            let first = if k < slot {
                before[k]
            } else if k == slot {
                own
            } else {
                before[k - 1]
            };
            let second = if l < slot {
                before[l]
            } else if l == slot {
                own
            } else {
                before[l - 1]
            };
            assert(order[k] == first && order[l] == second);
        }
        assert forall|k: int, l: int| 0 <= k < n && 0 <= l < n && k != l implies order[k]
            != order[l] by {
            lemma_irreflexive(queries, order[k]);
            if k < l {
                assert(revealed_before(queries, order[k], order[l]));
            } else {
                assert(revealed_before(queries, order[l], order[k]));
            }
        }
    }
}

proof fn lemma_irreflexive(queries: Seq<BatchQuery>, at: int)
    ensures
        !revealed_before(queries, at, at),
{
    text::lemma_less_total(queries[at].file@, queries[at].file@, 0);
}

/// The files that get a reveal in the first `n` turns, each once, in order.
pub open spec fn revealing_files(
    queries: Seq<BatchQuery>,
    files: Seq<Option<FileId>>,
    n: int,
) -> Seq<FileId>
    decreases n,
{
    if n <= 0 {
        Seq::empty()
    } else {
        let before = revealing_files(queries, files, n - 1);
        match expr_file(queries, files, turn(queries, n - 1)) {
            Some(file) => if before.contains(file) {
                before
            } else {
                before.push(file)
            },
            None => before,
        }
    }
}

/// The expressions that are asked for in a file in the first `n` turns.
pub open spec fn exprs_in(
    queries: Seq<BatchQuery>,
    files: Seq<Option<FileId>>,
    file: FileId,
    n: int,
) -> Seq<Seq<char>>
    decreases n,
{
    if n <= 0 {
        Seq::empty()
    } else {
        let before = exprs_in(queries, files, file, n - 1);
        if expr_file(queries, files, turn(queries, n - 1)) == Some(file) {
            before.push(queries[turn(queries, n - 1)].expr->Some_0@)
        } else {
            before
        }
    }
}

/// The text that was read for the file at a position; one that was not read is empty.
pub open spec fn source_at(sources: Seq<String>, at: int) -> Seq<char> {
    if 0 <= at < sources.len() {
        sources[at]@
    } else {
        Seq::empty()
    }
}

/// A file with another text.
#[derive(Debug)]
pub struct Override {
    pub file: FileId,
    pub content: String,
}

/// An override by value.
#[verifier::ext_equal]
pub struct OverrideView {
    pub file: FileId,
    pub content: Seq<char>,
}

impl View for Override {
    type V = OverrideView;

    open spec fn view(&self) -> OverrideView {
        OverrideView { file: self.file, content: self.content@ }
    }
}

/// The overrides by value.
pub open spec fn overrides_view(overrides: Seq<Override>) -> Seq<OverrideView> {
    overrides.map_values(|o: Override| o@)
}

/// The overrides that answer the expression queries: each file with its reveals.
pub open spec fn reveal_overrides(
    queries: Seq<BatchQuery>,
    files: Seq<Option<FileId>>,
    sources: Seq<String>,
) -> Seq<OverrideView> {
    let n = queries.len() as int;
    revealing_files(queries, files, n).map(
        |i: int, file: FileId|
            OverrideView {
                file,
                content: reveals::with_reveals(
                    source_at(sources, i),
                    exprs_in(queries, files, file, n),
                ),
            },
    )
}

/// Where a reveal stands: the file, and the line counted from one.
#[derive(Clone, Copy, PartialEq, Eq, Structural, Debug)]
pub struct Site {
    pub file: FileId,
    pub line: u64,
}

/// Where the reveal for a query stands: on the line of its file that follows the reveals
/// of the earlier turns.
pub open spec fn site_of(
    queries: Seq<BatchQuery>,
    files: Seq<Option<FileId>>,
    sources: Seq<String>,
    at: int,
) -> Option<Site> {
    match expr_file(queries, files, at) {
        None => None,
        Some(file) => {
            let position = revealing_files(queries, files, queries.len() as int).index_of(file);
            let line = reveals::reveal_line(
                source_at(sources, position),
                exprs_in(queries, files, file, turn_of(queries, at)).len() as int,
            );
            Some(Site { file, line: line as u64 })
        },
    }
}

/// The sites of the reveals of all queries.
pub open spec fn sites_of(
    queries: Seq<BatchQuery>,
    files: Seq<Option<FileId>>,
    sources: Seq<String>,
) -> Seq<Option<Site>> {
    Seq::new(queries.len(), |i: int| site_of(queries, files, sources, i))
}

pub proof fn lemma_revealing_files(queries: Seq<BatchQuery>, files: Seq<Option<FileId>>, n: int)
    ensures
        revealing_files(queries, files, n).no_duplicates(),
        forall|k: int|
            0 <= k < n && expr_file(queries, files, #[trigger] turn(queries, k)) is Some
                ==> revealing_files(queries, files, n).contains(
                expr_file(queries, files, turn(queries, k))->Some_0,
            ),
    decreases n,
{
    if n > 0 {
        lemma_revealing_files(queries, files, n - 1);
        let before = revealing_files(queries, files, n - 1);
        let after = revealing_files(queries, files, n);
        assert forall|file: FileId| before.contains(file) implies after.contains(file) by {
            let i = before.index_of(file);
            assert(after[i] == file);
        }
        if let Some(file) = expr_file(queries, files, turn(queries, n - 1)) {
            if !before.contains(file) {
                assert(after.last() == file);
            }
        }
    }
}

/// The file of every expression query gets a reveal.
pub proof fn lemma_all_reveal(queries: Seq<BatchQuery>, files: Seq<Option<FileId>>, at: int)
    requires
        0 <= at < queries.len(),
        expr_file(queries, files, at) is Some,
    ensures
        0 <= turn_of(queries, at) < queries.len(),
        turn(queries, turn_of(queries, at)) == at,
        revealing_files(queries, files, queries.len() as int).no_duplicates(),
        revealing_files(queries, files, queries.len() as int).contains(
            expr_file(queries, files, at)->Some_0,
        ),
{
    let n = queries.len() as int;
    law_reveals_go_by_file_name(queries, n);
    assert(turns(queries, n).contains(at));
    assert(turn(queries, turn_of(queries, at)) == at);
    lemma_revealing_files(queries, files, n);
}

/// Later turns only add expressions to a file.
proof fn lemma_exprs_grow(
    queries: Seq<BatchQuery>,
    files: Seq<Option<FileId>>,
    file: FileId,
    m: int,
    n: int,
)
    requires
        m <= n,
    ensures
        exprs_in(queries, files, file, m).len() <= exprs_in(queries, files, file, n).len(),
    decreases n - m,
{
    if m < n {
        lemma_exprs_grow(queries, files, file, m, n - 1);
    }
}

fn has_file(files: &Vec<FileId>, file: FileId) -> (found: bool)
    ensures
        found == files@.contains(file),
{
    let mut i: usize = 0;
    while i < files.len()
        invariant
            i <= files@.len(),
            forall|j: int| 0 <= j < i ==> files@[j] != file,
        decreases files@.len() - i,
    {
        if files[i] == file {
            return true;
        }
        i += 1;
    }
    false
}

fn position_of(files: &Vec<FileId>, file: FileId) -> (at: usize)
    requires
        files@.contains(file),
    ensures
        at < files@.len(),
        files@[at as int] == file,
{
    let n: usize = files.len();
    let mut at: usize = 0;
    while files[at] != file
        invariant
            at < n,
            n == files@.len(),
            files@.contains(file),
            forall|j: int| 0 <= j < at ==> files@[j] != file,
        decreases files@.len() - at,
    {
        assert(files@.index_of(file) > at) by {
            assert(files@[files@.index_of(file)] == file);
        }
        at += 1;
    }
    at
}

fn file_of_expr(queries: &Vec<BatchQuery>, files: &Vec<Option<FileId>>, at: usize) -> (file: Option<
    FileId,
>)
    requires
        at < queries@.len(),
    ensures
        file == expr_file(queries@, files@, at as int),
{
    if queries[at].expr.is_some() {
        file_of(files, at)
    } else {
        None
    }
}

/// The positions of the queries in the order of their reveals.
fn order_of_reveals(queries: &Vec<BatchQuery>) -> (order: Vec<usize>)
    ensures
        in_turn(order@, turns(queries@, queries@.len() as int)),
{
    let mut names: Vec<Vec<char>> = Vec::new();
    let mut order: Vec<usize> = Vec::new();
    let mut i: usize = 0;
    while i < queries.len()
        invariant
            i <= queries@.len(),
            names@.len() == i,
            forall|j: int| 0 <= j < i ==> (#[trigger] names@[j])@ == queries@[j].file@,
            in_turn(order@, turns(queries@, i as int)),
        decreases queries@.len() - i,
    {
        let ghost before = turns(queries@, i as int);
        proof {
            law_reveals_go_by_file_name(queries@, i as int);
        }
        let name = chars_of(queries[i].file.as_str());
        let mut p: usize = order.len();
        while p > 0 && is_less(&name, &names[order[p - 1]])
            invariant
                p <= order@.len(),
                i < queries@.len(),
                names@.len() == i,
                before.len() == i,
                name@ == queries@[i as int].file@,
                forall|j: int| 0 <= j < i ==> (#[trigger] names@[j])@ == queries@[j].file@,
                forall|k: int| 0 <= k < before.len() ==> 0 <= #[trigger] before[k] < i,
                in_turn(order@, before),
                slot_in(queries@, before, i as int, before.len() as int) == slot_in(
                    queries@,
                    before,
                    i as int,
                    p as int,
                ),
            decreases p,
        {
            assert(names@[order@[p - 1] as int]@ == queries@[before[p - 1]].file@);
            p -= 1;
        }
        proof {
            if p > 0 {
                assert(order@[p - 1] == before[p - 1]);
                assert(names@[order@[p - 1] as int]@ == queries@[before[p - 1]].file@);
            }
        }
        let ghost earlier = order@;
        order.insert(p, i);
        names.push(name);
        proof {
            let after = turns(queries@, i + 1);
            assert(after == before.insert(p as int, i as int));
            assert forall|k: int| 0 <= k < after.len() implies #[trigger] order@[k]
                == after[k] by {
                if k < p {
                    assert(order@[k] == earlier[k] && after[k] == before[k]);
                } else if k > p {
                    assert(order@[k] == earlier[k - 1] && after[k] == before[k - 1]);
                }
            }
        }
        i += 1;
    }
    order
}

/// `order` holds the positions `turns`.
spec fn in_turn(order: Seq<usize>, turns: Seq<int>) -> bool {
    &&& order.len() == turns.len()
    &&& forall|k: int| 0 <= k < order.len() ==> #[trigger] order[k] == turns[k]
}

/// The files that get a reveal, each once.
pub fn files_to_reveal(queries: &Vec<BatchQuery>, files: &Vec<Option<FileId>>) -> (targets: Vec<FileId>)
    ensures
        targets@ == revealing_files(queries@, files@, queries@.len() as int),
{
    let order = order_of_reveals(queries);
    revealed_files(queries, files, &order)
}

fn revealed_files(
    queries: &Vec<BatchQuery>,
    files: &Vec<Option<FileId>>,
    order: &Vec<usize>,
) -> (targets: Vec<FileId>)
    requires
        in_turn(order@, turns(queries@, queries@.len() as int)),
    ensures
        targets@ == revealing_files(queries@, files@, queries@.len() as int),
{
    proof {
        law_reveals_go_by_file_name(queries@, queries@.len() as int);
    }
    let mut targets: Vec<FileId> = Vec::new();
    let mut k: usize = 0;
    while k < order.len()
        invariant
            k <= order@.len(),
            order@.len() == queries@.len(),
            forall|k: int|
                0 <= k < order@.len() ==> #[trigger] order@[k] == turn(queries@, k) && order@[k]
                    < queries@.len(),
            targets@ == revealing_files(queries@, files@, k as int),
        decreases order@.len() - k,
    {
        assert(order@[k as int] == turn(queries@, k as int));
        if let Some(file) = file_of_expr(queries, files, order[k]) {
            if !has_file(&targets, file) {
                targets.push(file);
            }
        }
        k += 1;
    }
    targets
}

/// The expressions that are asked for in a file.
fn exprs_to_reveal<'a>(
    queries: &'a Vec<BatchQuery>,
    files: &Vec<Option<FileId>>,
    order: &Vec<usize>,
    file: FileId,
) -> (exprs: Vec<&'a String>)
    requires
        order@.len() == queries@.len(),
        forall|k: int|
            0 <= k < order@.len() ==> #[trigger] order@[k] == turn(queries@, k) && order@[k]
                < queries@.len(),
    ensures
        exprs@.map_values(|expr: &String| expr@) == exprs_in(
            queries@,
            files@,
            file,
            queries@.len() as int,
        ),
{
    let mut exprs: Vec<&'a String> = Vec::new();
    let mut k: usize = 0;
    while k < order.len()
        invariant
            k <= order@.len(),
            order@.len() == queries@.len(),
            forall|k: int|
                0 <= k < order@.len() ==> #[trigger] order@[k] == turn(queries@, k) && order@[k]
                    < queries@.len(),
            exprs@.map_values(|expr: &String| expr@) == exprs_in(queries@, files@, file, k as int),
        decreases order@.len() - k,
    {
        let i: usize = order[k];
        assert(order@[k as int] == turn(queries@, k as int));
        let own = file_of_expr(queries, files, i);
        if let Some(expr) = &queries[i].expr {
            if let Some(own) = own {
                if own == file {
                    let ghost before = exprs@.map_values(|expr: &String| expr@);
                    exprs.push(expr);
                    assert(exprs@.map_values(|expr: &String| expr@) =~= before.push(expr@));
                }
            }
        }
        k += 1;
    }
    exprs
}

/// What the expression queries need: the files with their reveals, and the site of the
/// reveal of each query.
pub struct RevealPlan {
    pub overrides: Vec<Override>,
    pub sites: Vec<Option<Site>>,
}

/// Plans the reveals; `sources` are the texts of the files that `files_to_reveal` names.
pub fn plan_reveals(
    queries: &Vec<BatchQuery>,
    files: &Vec<Option<FileId>>,
    sources: &Vec<String>,
) -> (plan: RevealPlan)
    ensures
        overrides_view(plan.overrides@) == reveal_overrides(queries@, files@, sources@),
        plan.sites@ == sites_of(queries@, files@, sources@),
{
    let order = order_of_reveals(queries);
    proof {
        law_reveals_go_by_file_name(queries@, queries@.len() as int);
    }
    let targets = revealed_files(queries, files, &order);
    let ghost n = queries@.len() as int;
    assert forall|k: int| 0 <= k < order@.len() implies #[trigger] order@[k] == turn(queries@, k)
        && order@[k] < n by {
        assert(0 <= turns(queries@, n)[k] < n);
    }
    let empty = String::new();
    let mut overrides: Vec<Override> = Vec::new();
    // The number of lines of each file up to its next reveal.
    let mut lines: Vec<u64> = Vec::new();
    let mut k: usize = 0;
    while k < targets.len()
        invariant
            k <= targets@.len(),
            n == queries@.len(),
            order@.len() == n,
            forall|k: int|
                0 <= k < order@.len() ==> #[trigger] order@[k] == turn(queries@, k) && order@[k] < n,
            empty@ == Seq::<char>::empty(),
            targets@ == revealing_files(queries@, files@, n),
            overrides_view(overrides@) == reveal_overrides(queries@, files@, sources@).take(
                k as int,
            ),
            lines@.len() == k,
            forall|j: int|
                0 <= j < k ==> (#[trigger] lines@[j]) + 1 == reveals::reveal_line(
                    source_at(sources@, j),
                    0,
                ) && lines@[j] + exprs_in(queries@, files@, targets@[j], n).len() <= u64::MAX,
        decreases targets@.len() - k,
    {
        let file = targets[k];
        let source: &String = if k < sources.len() {
            &sources[k]
        } else {
            &empty
        };
        assert(source@ == source_at(sources@, k as int));
        let exprs = exprs_to_reveal(queries, files, &order, file);
        let appended = append_reveals(source.as_str(), &exprs);
        lines.push(appended.lines_before);
        let ghost before = overrides@;
        overrides.push(Override { file, content: appended.content });
        proof {
            assert(exprs@.map_values(|expr: &String| expr@).len() == exprs@.len());
            let all = reveal_overrides(queries@, files@, sources@);
            assert(overrides_view(overrides@) =~= overrides_view(before).push(all[k as int]));
            assert(all.take(k + 1) =~= all.take(k as int).push(all[k as int]));
        }
        k += 1;
    }
    proof {
        let all = reveal_overrides(queries@, files@, sources@);
        assert(all.take(k as int) == all);
        lemma_revealing_files(queries@, files@, n);
    }
    let mut sites: Vec<Option<Site>> = Vec::new();
    while sites.len() < queries.len()
        invariant
            sites@.len() <= queries@.len(),
            forall|j: int| 0 <= j < sites@.len() ==> (#[trigger] sites@[j]) is None,
        decreases queries@.len() - sites@.len(),
    {
        sites.push(None);
    }
    let mut i: usize = 0;
    while i < order.len()
        invariant
            i <= n,
            n == queries@.len(),
            order@.len() == n,
            forall|k: int|
                0 <= k < order@.len() ==> #[trigger] order@[k] == turn(queries@, k) && order@[k] < n,
            turns(queries@, n).len() == n,
            turns(queries@, n).no_duplicates(),
            targets@ == revealing_files(queries@, files@, n),
            targets@.no_duplicates(),
            forall|k: int|
                0 <= k < n && expr_file(queries@, files@, #[trigger] turn(queries@, k)) is Some
                    ==> targets@.contains(expr_file(queries@, files@, turn(queries@, k))->Some_0),
            lines@.len() == targets@.len(),
            forall|j: int|
                0 <= j < targets@.len() ==> (#[trigger] lines@[j]) + 1 == reveals::reveal_line(
                    source_at(sources@, j),
                    exprs_in(queries@, files@, targets@[j], i as int).len() as int,
                ) && lines@[j] + exprs_in(queries@, files@, targets@[j], n).len() - exprs_in(
                    queries@,
                    files@,
                    targets@[j],
                    i as int,
                ).len() <= u64::MAX,
            sites@.len() == n,
            forall|k: int|
                0 <= k < i ==> sites@[#[trigger] turn(queries@, k)] == site_of(
                    queries@,
                    files@,
                    sources@,
                    turn(queries@, k),
                ),
            forall|k: int| i <= k < n ==> sites@[#[trigger] turn(queries@, k)] is None,
        decreases n - i,
    {
        let ghost lines_before = lines@;
        let ghost sites_before = sites@;
        let own: usize = order[i];
        proof {
            assert(order@[i as int] == turn(queries@, i as int));
            let all = turns(queries@, n);
            assert(all[i as int] == own);
            assert(all.contains(own as int));
            assert(all[all.index_of(own as int)] == own);
            assert(turn_of(queries@, own as int) == i);
            assert forall|k: int| 0 <= k < n && k != i implies #[trigger] turn(queries@, k)
                != own by {
                assert(all[k] != all[i as int]);
            }
        }
        if let Some(file) = file_of_expr(queries, files, own) {
            let at = position_of(&targets, file);
            proof {
                let position = targets@.index_of(file);
                assert(targets@[position] == file);
                assert(position == at);
                lemma_exprs_grow(queries@, files@, file, i + 1, n);
            }
            let line: u64 = lines[at] + 1;
            sites.set(own, Some(Site { file, line }));
            lines.set(at, line);
        }
        proof {
            assert(sites@[own as int] == site_of(queries@, files@, sources@, own as int));
            assert forall|k: int| 0 <= k < n && k != i implies sites@[#[trigger] turn(
                queries@,
                k,
            )] == sites_before[turn(queries@, k)] by {
                assert(order@[k] == turn(queries@, k));
            }
            assert forall|j: int| 0 <= j < targets@.len() implies (#[trigger] lines@[j]) + 1
                == reveals::reveal_line(
                source_at(sources@, j),
                exprs_in(queries@, files@, targets@[j], i + 1).len() as int,
            ) && lines@[j] + exprs_in(queries@, files@, targets@[j], n).len() - exprs_in(
                queries@,
                files@,
                targets@[j],
                i + 1,
            ).len() <= u64::MAX by {
                assert(lines_before[j] + 1 == reveals::reveal_line(
                    source_at(sources@, j),
                    exprs_in(queries@, files@, targets@[j], i as int).len() as int,
                ));
            }
        }
        i += 1;
    }
    proof {
        assert forall|at: int| 0 <= at < n implies #[trigger] sites@[at] == site_of(
            queries@,
            files@,
            sources@,
            at,
        ) by {
            let k = turn_of(queries@, at);
            assert(turns(queries@, n).contains(at));
            assert(turn(queries@, k) == at);
        }
    }
    assert(sites@ =~= sites_of(queries@, files@, sources@));
    RevealPlan { overrides, sites }
}

// -- what a check found -----------------------------------------------------------------

/// A diagnostic of a check; `owners` gives the classes of the methods whose `Self` types
/// a reveal names.
#[derive(Debug)]
pub struct Reported {
    pub diagnostic: Diagnostic,
    pub owners: Vec<SelfOwner>,
}

/// The file that a diagnostic is about, and where in it the diagnostic starts.
pub open spec fn start_of(reported: Reported) -> Option<(FileId, u32)> {
    match reported.diagnostic.annotation {
        Some(annotation) => match (annotation.file, annotation.span) {
            (Some(file), Some(span)) => Some((file.id, span.range.start)),
            _ => None,
        },
        None => None,
    }
}

/// The first diagnostic from `from` on that starts in `file` behind `start`.
pub open spec fn first_later(
    reported: Seq<Reported>,
    file: FileId,
    start: u32,
    from: int,
) -> Option<int>
    decreases reported.len() - from,
{
    if from < 0 || from >= reported.len() {
        None
    } else if start_of(reported[from]) matches Some(place) && place.0 == file && start < place.1 {
        Some(from)
    } else {
        first_later(reported, file, start, from + 1)
    }
}

/// Where the diagnostics of `file` among the first `n` end; zero where there are none.
pub open spec fn end_of_file(reported: Seq<Reported>, file: FileId, n: int) -> int
    decreases n,
{
    if n <= 0 {
        0
    } else if start_of(reported[n - 1]) matches Some(place) && place.0 == file {
        n
    } else {
        end_of_file(reported, file, n - 1)
    }
}

/// Where a further diagnostic goes: before the first one of its file that starts later,
/// otherwise behind those of its file; the first one of a file goes to the end.
pub open spec fn slot_for(reported: Seq<Reported>, further: Reported) -> int {
    match start_of(further) {
        None => reported.len() as int,
        Some((file, start)) => match first_later(reported, file, start, 0) {
            Some(at) => at,
            None => {
                let end = end_of_file(reported, file, reported.len() as int);
                if end == 0 {
                    reported.len() as int
                } else {
                    end
                }
            },
        },
    }
}

fn find_start(reported: &Reported) -> (start: Option<(FileId, u32)>)
    ensures
        start == start_of(*reported),
{
    match &reported.diagnostic.annotation {
        Some(annotation) => match (&annotation.file, &annotation.span) {
            (Some(file), Some(span)) => Some((file.id, span.range.start)),
            _ => None,
        },
        None => None,
    }
}

/// Puts a further diagnostic among those of its file, in the order of the text.
pub fn insert_in_order(reported: &mut Vec<Reported>, further: Reported)
    ensures
        final(reported)@ == old(reported)@.insert(
            slot_for(old(reported)@, further),
            further,
        ),
{
    let n: usize = reported.len();
    let (file, start) = match find_start(&further) {
        Some(place) => place,
        None => {
            assert(reported@.insert(n as int, further) == reported@.push(further));
            reported.push(further);
            return;
        },
    };
    let mut end: usize = 0;
    let mut i: usize = 0;
    while i < n
        invariant
            i <= n,
            end <= i,
            n == reported@.len(),
            reported@ == old(reported)@,
            end == end_of_file(reported@, file, i as int),
            first_later(reported@, file, start, 0) == first_later(
                reported@,
                file,
                start,
                i as int,
            ),
            start_of(further) == Some((file, start)),
        decreases n - i,
    {
        if let Some(place) = find_start(&reported[i]) {
            if place.0 == file {
                if start < place.1 {
                    reported.insert(i, further);
                    return;
                }
                end = i + 1;
            }
        }
        i += 1;
    }
    let at: usize = if end == 0 {
        n
    } else {
        end
    };
    reported.insert(at, further);
}

/// The entry of a diagnostic in an answer: reveals have none.
pub open spec fn entry_for(diagnostic: Diagnostic) -> Option<EntryView> {
    if diagnostic.id is RevealedType {
        None
    } else {
        diagnostics::lint_entry(diagnostic)
    }
}

/// The entries of the first `n` diagnostics.
pub open spec fn entries_in(reported: Seq<Reported>, n: int) -> Seq<EntryView>
    decreases n,
{
    if n <= 0 {
        Seq::empty()
    } else {
        let before = entries_in(reported, n - 1);
        match entry_for(reported[n - 1].diagnostic) {
            Some(entry) => before.push(entry),
            None => before,
        }
    }
}

/// The reveals among the first `n` diagnostics.
pub open spec fn reveals_in(reported: Seq<Reported>, n: int) -> Seq<RevealView>
    decreases n,
{
    if n <= 0 {
        Seq::empty()
    } else {
        let before = reveals_in(reported, n - 1);
        match diagnostics::reveal_of(reported[n - 1].diagnostic, reported[n - 1].owners@) {
            Some(reveal) => before.push(reveal),
            None => before,
        }
    }
}

/// The reveals by value.
pub open spec fn reveals_view(reveals: Seq<Reveal>) -> Seq<RevealView> {
    reveals.map_values(|reveal: Reveal| reveal@)
}

/// Whether an entry has the identity of one of the others.
pub open spec fn known(base: Seq<EntryView>, entry: EntryView) -> bool {
    exists|i: int|
        0 <= i < base.len() && diagnostics::key_of(#[trigger] base[i]) == diagnostics::key_of(entry)
}

/// The entries of the first `n` diagnostics that `base` does not have.
pub open spec fn added_in(base: Seq<EntryView>, reported: Seq<Reported>, n: int) -> Seq<EntryView>
    decreases n,
{
    if n <= 0 {
        Seq::empty()
    } else {
        let before = added_in(base, reported, n - 1);
        match entry_for(reported[n - 1].diagnostic) {
            Some(entry) => if known(base, entry) {
                before
            } else {
                before.push(entry)
            },
            None => before,
        }
    }
}

fn entry_of(diagnostic: &Diagnostic) -> (entry: Option<Entry>)
    ensures
        diagnostics::optional_entry(entry) == entry_for(*diagnostic),
{
    match diagnostic.id {
        DiagnosticId::RevealedType => None,
        _ => convert_lint(diagnostic),
    }
}

/// The entries and the reveals of a check. A reveal is an artifact of how expressions are
/// asked for, or was written by a user: it is never an entry.
pub struct BaseCheck {
    pub entries: Vec<Entry>,
    pub reveals: Vec<Reveal>,
}

/// Sorts the diagnostics of the base check.
pub fn base_check(reported: &Vec<Reported>) -> (base: BaseCheck)
    ensures
        diagnostics::entries_view(base.entries@) == entries_in(
            reported@,
            reported@.len() as int,
        ),
        reveals_view(base.reveals@) == reveals_in(reported@, reported@.len() as int),
{
    let mut entries: Vec<Entry> = Vec::new();
    let mut reveals: Vec<Reveal> = Vec::new();
    let mut i: usize = 0;
    while i < reported.len()
        invariant
            i <= reported@.len(),
            diagnostics::entries_view(entries@) == entries_in(reported@, i as int),
            reveals_view(reveals@) == reveals_in(reported@, i as int),
        decreases reported@.len() - i,
    {
        let item = &reported[i];
        match reveal_answer(&item.diagnostic, &item.owners) {
            Some(reveal) => {
                let ghost before = reveals_view(reveals@);
                reveals.push(reveal);
                assert(reveals_view(reveals@) =~= before.push(reveal@));
            },
            None => {
                let ghost before = diagnostics::entries_view(entries@);
                if let Some(entry) = entry_of(&item.diagnostic) {
                    entries.push(entry);
                    assert(diagnostics::entries_view(entries@) =~= before.push(entry@));
                }
            },
        }
        i += 1;
    }
    BaseCheck { entries, reveals }
}

fn has_key(keys: &Vec<EntryKey>, key: &EntryKey) -> (found: bool)
    ensures
        found == exists|i: int| 0 <= i < keys@.len() && (#[trigger] keys@[i])@ == key@,
{
    let mut i: usize = 0;
    while i < keys.len()
        invariant
            i <= keys@.len(),
            forall|j: int| 0 <= j < i ==> (#[trigger] keys@[j])@ != key@,
        decreases keys@.len() - i,
    {
        if keys[i].same(key) {
            assert(keys@[i as int]@ == key@);
            return true;
        }
        i += 1;
    }
    false
}

/// The diagnostics of a world that the base check does not have, by file, line and rule.
pub fn added_diagnostics(base: &Vec<Entry>, reported: &Vec<Reported>) -> (added: Vec<Entry>)
    ensures
        diagnostics::entries_view(added@) == added_in(
            diagnostics::entries_view(base@),
            reported@,
            reported@.len() as int,
        ),
{
    let ghost entries = diagnostics::entries_view(base@);
    let mut keys: Vec<EntryKey> = Vec::new();
    let mut k: usize = 0;
    while k < base.len()
        invariant
            k <= base@.len(),
            keys@.len() == k,
            entries == diagnostics::entries_view(base@),
            forall|j: int|
                0 <= j < k ==> (#[trigger] keys@[j])@ == diagnostics::key_of(entries[j]),
        decreases base@.len() - k,
    {
        keys.push(entry_key(&base[k]));
        k += 1;
    }
    let mut added: Vec<Entry> = Vec::new();
    let mut i: usize = 0;
    while i < reported.len()
        invariant
            i <= reported@.len(),
            keys@.len() == entries.len(),
            forall|j: int|
                0 <= j < keys@.len() ==> (#[trigger] keys@[j])@ == diagnostics::key_of(entries[j]),
            diagnostics::entries_view(added@) == added_in(entries, reported@, i as int),
        decreases reported@.len() - i,
    {
        if let Some(entry) = entry_of(&reported[i].diagnostic) {
            let key = entry_key(&entry);
            let old = has_key(&keys, &key);
            proof {
                if old {
                    let j = choose|j: int| 0 <= j < keys@.len() && (#[trigger] keys@[j])@ == key@;
                    assert(diagnostics::key_of(entries[j]) == diagnostics::key_of(entry@));
                } else if known(entries, entry@) {
                    let j = choose|j: int|
                        0 <= j < entries.len() && diagnostics::key_of(#[trigger] entries[j])
                            == diagnostics::key_of(entry@);
                    assert(keys@[j]@ == key@);
                }
            }
            if !old {
                let ghost before = diagnostics::entries_view(added@);
                added.push(entry);
                assert(diagnostics::entries_view(added@) =~= before.push(entry@));
            }
        }
        i += 1;
    }
    added
}

/// A world without an effect adds nothing: what the base check reported is not new.
pub proof fn law_base_adds_nothing(reported: Seq<Reported>, n: int)
    requires
        0 <= n <= reported.len(),
    ensures
        added_in(entries_in(reported, reported.len() as int), reported, n).len() == 0,
    decreases n,
{
    if n > 0 {
        law_base_adds_nothing(reported, n - 1);
        if let Some(entry) = entry_for(reported[n - 1].diagnostic) {
            lemma_entry_in(reported, n - 1, reported.len() as int);
            let base = entries_in(reported, reported.len() as int);
            let at = base.index_of(entry);
            assert(diagnostics::key_of(base[at]) == diagnostics::key_of(entry));
        }
    }
}

proof fn lemma_entry_in(reported: Seq<Reported>, at: int, n: int)
    requires
        0 <= at < n <= reported.len(),
        entry_for(reported[at].diagnostic) is Some,
    ensures
        entries_in(reported, n).contains(entry_for(reported[at].diagnostic)->Some_0),
    decreases n,
{
    let entry = entry_for(reported[at].diagnostic)->Some_0;
    let all = entries_in(reported, n);
    if at == n - 1 {
        assert(all.last() == entry);
    } else {
        lemma_entry_in(reported, at, n - 1);
        let before = entries_in(reported, n - 1);
        let i = before.index_of(entry);
        assert(all[i] == entry);
    }
}

/// What a world adds is new: none of it has the identity of a base entry.
pub proof fn law_added_is_new(base: Seq<EntryView>, reported: Seq<Reported>, n: int, at: int)
    requires
        0 <= n <= reported.len(),
        0 <= at < added_in(base, reported, n).len(),
    ensures
        !known(base, added_in(base, reported, n)[at]),
    decreases n,
{
    if n > 0 {
        let before = added_in(base, reported, n - 1);
        if at < before.len() {
            law_added_is_new(base, reported, n - 1, at);
        }
    }
}

/// Whatever a world reports that is new is among what it adds.
pub proof fn law_new_entries_are_added(
    base: Seq<EntryView>,
    reported: Seq<Reported>,
    n: int,
    at: int,
)
    requires
        0 <= at < n <= reported.len(),
        entry_for(reported[at].diagnostic) matches Some(entry) && !known(base, entry),
    ensures
        added_in(base, reported, n).contains(entry_for(reported[at].diagnostic)->Some_0),
    decreases n,
{
    let entry = entry_for(reported[at].diagnostic)->Some_0;
    let all = added_in(base, reported, n);
    if at == n - 1 {
        assert(all.last() == entry);
    } else {
        law_new_entries_are_added(base, reported, n - 1, at);
        let before = added_in(base, reported, n - 1);
        let i = before.index_of(entry);
        assert(all[i] == entry);
    }
}

/// Reveals never reach the diagnostics: what is reported is a warning or an error, and has
/// a rule.
pub proof fn law_no_reveal_is_reported(reported: Seq<Reported>, n: int, at: int)
    requires
        0 <= n <= reported.len(),
        0 <= at < entries_in(reported, n).len(),
    ensures
        !(entries_in(reported, n)[at].severity is Information),
        entries_in(reported, n)[at].rule is Some,
    decreases n,
{
    if n > 0 {
        let before = entries_in(reported, n - 1);
        if at < before.len() {
            law_no_reveal_is_reported(reported, n - 1, at);
        }
    }
}

// -- answers ----------------------------------------------------------------------------

/// The answer to a query.
#[derive(Debug)]
pub enum Answer {
    Type(String),
    /// There is no such expression, or no type is known for it.
    Miss,
    /// The query cannot be answered, for the reason given.
    Error(String),
}

/// An answer by value.
pub enum AnswerView {
    Type(Seq<char>),
    Miss,
    Error(Seq<char>),
}

impl View for Answer {
    type V = AnswerView;

    open spec fn view(&self) -> AnswerView {
        match *self {
            Answer::Type(text) => AnswerView::Type(text@),
            Answer::Miss => AnswerView::Miss,
            Answer::Error(text) => AnswerView::Error(text@),
        }
    }
}

/// The type that the last of the first `n` reveals at a site shows.
pub open spec fn revealed_at(
    reveals: Seq<RevealView>,
    site: Option<Site>,
    n: int,
) -> Option<Seq<char>>
    decreases n,
{
    if n <= 0 {
        None
    } else if site == Some(Site { file: reveals[n - 1].file, line: reveals[n - 1].line }) {
        Some(reveals[n - 1].text)
    } else {
        revealed_at(reveals, site, n - 1)
    }
}

/// The answer that an outcome is.
pub open spec fn type_or_miss(text: Option<Seq<char>>) -> AnswerView {
    match text {
        Some(text) => AnswerView::Type(text),
        None => AnswerView::Miss,
    }
}

/// The answer to a query: an error for a file that the project does not have; the type
/// that the reveal of an expression shows; the type at a span.
pub open spec fn answer_of(
    query: BatchQuery,
    file: Option<FileId>,
    site: Option<Site>,
    reveals: Seq<RevealView>,
    span: Option<Seq<char>>,
) -> AnswerView {
    if file is None {
        AnswerView::Error(unresolved_text(query.file@))
    } else if query.expr is Some {
        type_or_miss(revealed_at(reveals, site, reveals.len() as int))
    } else {
        type_or_miss(span)
    }
}

/// The position, counted from one, of the last of the first `n` reveals at a site; zero
/// where there is none.
pub open spec fn last_reveal(reveals: Seq<RevealView>, site: Option<Site>, n: int) -> int
    decreases n,
{
    if n <= 0 {
        0
    } else if site == Some(Site { file: reveals[n - 1].file, line: reveals[n - 1].line }) {
        n
    } else {
        last_reveal(reveals, site, n - 1)
    }
}

proof fn lemma_last_reveal(reveals: Seq<RevealView>, site: Option<Site>, n: int)
    requires
        0 <= n <= reveals.len(),
    ensures
        0 <= last_reveal(reveals, site, n) <= n,
        revealed_at(reveals, site, n) == if last_reveal(reveals, site, n) == 0 {
            None
        } else {
            Some(reveals[last_reveal(reveals, site, n) - 1].text)
        },
    decreases n,
{
    if n > 0 {
        lemma_last_reveal(reveals, site, n - 1);
    }
}

pub(crate) fn reveal_position(reveals: &Vec<Reveal>, site: Option<Site>) -> (position: usize)
    ensures
        position == last_reveal(reveals_view(reveals@), site, reveals@.len() as int),
{
    let ghost shown = reveals_view(reveals@);
    let mut n: usize = reveals.len();
    while n > 0
        invariant
            n <= reveals@.len(),
            shown == reveals_view(reveals@),
            last_reveal(shown, site, reveals@.len() as int) == last_reveal(shown, site, n as int),
        decreases n,
    {
        let reveal = &reveals[n - 1];
        if let Some(site) = site {
            if site.file == reveal.file && site.line == reveal.line {
                return n;
            }
        }
        n -= 1;
    }
    0
}

fn find_reveal(reveals: &Vec<Reveal>, site: Option<Site>) -> (text: Option<String>)
    ensures
        args::optional_view(text) == revealed_at(
            reveals_view(reveals@),
            site,
            reveals@.len() as int,
        ),
{
    proof {
        lemma_last_reveal(reveals_view(reveals@), site, reveals@.len() as int);
    }
    let position = reveal_position(reveals, site);
    if position == 0 {
        None
    } else {
        Some(reveals[position - 1].text.clone())
    }
}

/// Answers one query.
pub fn answer_query(
    query: &BatchQuery,
    file: Option<FileId>,
    site: Option<Site>,
    reveals: &Vec<Reveal>,
    span: &Option<String>,
) -> (answer: Answer)
    ensures
        answer@ == answer_of(
            *query,
            file,
            site,
            reveals_view(reveals@),
            args::optional_view(*span),
        ),
{
    if file.is_none() {
        return Answer::Error(unresolved_message(query.file.as_str()));
    }
    let text = if query.expr.is_some() {
        find_reveal(reveals, site)
    } else {
        match span {
            Some(text) => Some(text.clone()),
            None => None,
        }
    };
    match text {
        Some(text) => Answer::Type(text),
        None => Answer::Miss,
    }
}

} // verus!
