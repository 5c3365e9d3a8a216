//! Requests that are served one after the other.
//!
//! A host keeps the project and the overrides that are in force. For each request it does
//! what the run asks for, and before each step it puts exactly the overrides of the run in
//! force. What its type checker replies depends on these overrides and on what is asked.

use vstd::prelude::*;

use crate::batch;
use crate::batch::{OverrideView, Request, RequestErrorView};
use crate::session;
use crate::session::{Event, ResponseView, RunView};
use crate::types::FileId;

verus! {

/// The overrides of a host: the texts, and the files that it has noted as overridden.
pub struct HostView {
    pub files: Seq<FileId>,
    pub texts: Map<FileId, Seq<char>>,
}

/// A host that has noted every file it overrides.
pub open spec fn tracked_files(host: HostView) -> bool {
    forall|file: FileId| #[trigger]
        host.texts.contains_key(file) ==> host.files.contains(file)
}

/// A host that overrides nothing.
pub open spec fn fresh() -> HostView {
    HostView { files: Seq::empty(), texts: Map::empty() }
}

/// A host after it has put the wanted overrides in force.
pub open spec fn set_up(host: HostView, wanted: Seq<OverrideView>) -> HostView {
    HostView {
        files: wanted.map_values(|o: OverrideView| o.file),
        texts: session::changed(host.texts, session::changes_for(host.files, wanted)),
    }
}

/// A run after at most `steps` replies of a type checker, and the host after it.
pub open spec fn played(
    reply: spec_fn(Map<FileId, Seq<char>>, RunView) -> Event,
    host: HostView,
    run: RunView,
    steps: nat,
) -> (Result<RunView, RequestErrorView>, HostView)
    decreases steps,
{
    let ready = set_up(host, session::in_force(run));
    if steps == 0 || run.stage is Done {
        (Ok(run), ready)
    } else {
        match session::stepped(run, reply(ready.texts, run)) {
            Ok(next) => played(reply, ready, next, (steps - 1) as nat),
            Err(error) => (Err(error), ready),
        }
    }
}

/// The response to a request after at most `steps` replies, or why it is refused, and the
/// host after it. No override of a request outlives it.
pub open spec fn served(
    reply: spec_fn(Map<FileId, Seq<char>>, RunView) -> Event,
    host: HostView,
    request: Request,
    steps: nat,
) -> (Result<Option<ResponseView>, RequestErrorView>, HostView) {
    match batch::first_incomplete(request.queries@, 0) {
        Some(at) => (
            Err(RequestErrorView::IncompleteSpan(request.queries@[at].id@)),
            set_up(host, Seq::empty()),
        ),
        None => {
            let (outcome, after) = played(reply, host, session::started(request), steps);
            (
                match outcome {
                    Ok(run) => Ok(session::responded(run)),
                    Err(error) => Err(error),
                },
                set_up(after, Seq::empty()),
            )
        },
    }
}

/// What is in force does not depend on what was, and it is noted.
proof fn lemma_set_up(host: HostView, wanted: Seq<OverrideView>)
    requires
        tracked_files(host),
    ensures
        set_up(host, wanted) == set_up(fresh(), wanted),
        set_up(host, wanted).texts == session::overridden(wanted),
        tracked_files(set_up(host, wanted)),
{
    session::law_only_wanted_overrides_stay(host.texts, host.files, wanted);
    session::law_only_wanted_overrides_stay(fresh().texts, fresh().files, wanted);
    lemma_overridden(wanted);
}

proof fn lemma_overridden(wanted: Seq<OverrideView>)
    ensures
        forall|file: FileId| #[trigger]
            session::overridden(wanted).contains_key(file) ==> wanted.map_values(
                |o: OverrideView| o.file,
            ).contains(file),
    decreases wanted.len(),
{
    if wanted.len() > 0 {
        let before = wanted.drop_last();
        lemma_overridden(before);
        let files = wanted.map_values(|o: OverrideView| o.file);
        let earlier = before.map_values(|o: OverrideView| o.file);
        assert forall|file: FileId| #[trigger]
            session::overridden(wanted).contains_key(file) implies files.contains(file) by {
            if file == wanted.last().file {
                assert(files[wanted.len() - 1] == file);
            } else {
                assert(session::overridden(before).contains_key(file));
                let at = earlier.index_of(file);
                assert(files[at] == earlier[at]);
            }
        }
    }
}

/// At every stage of a run the overrides are those that the run wants, and how it goes on
/// does not depend on those that stood before it.
pub proof fn law_runs_forget_what_stood_before(
    reply: spec_fn(Map<FileId, Seq<char>>, RunView) -> Event,
    earlier: HostView,
    run: RunView,
    steps: nat,
)
    requires
        tracked_files(earlier),
    ensures
        set_up(earlier, session::in_force(run)).texts == session::overridden(
            session::in_force(run),
        ),
        played(reply, earlier, run, steps) == played(reply, fresh(), run, steps),
        tracked_files(played(reply, earlier, run, steps).1),
    decreases steps,
{
    lemma_set_up(earlier, session::in_force(run));
    lemma_set_up(fresh(), session::in_force(run));
    let ready = set_up(earlier, session::in_force(run));
    if steps > 0 && !(run.stage is Done) {
        if let Ok(next) = session::stepped(run, reply(ready.texts, run)) {
            law_runs_forget_what_stood_before(reply, ready, next, (steps - 1) as nat);
        }
    }
}

/// A request is answered as on a fresh host, whatever overrides stood before, and it leaves
/// none behind.
pub proof fn law_served_like_fresh(
    reply: spec_fn(Map<FileId, Seq<char>>, RunView) -> Event,
    earlier: HostView,
    request: Request,
    steps: nat,
)
    requires
        tracked_files(earlier),
    ensures
        served(reply, earlier, request, steps) == served(reply, fresh(), request, steps),
        served(reply, earlier, request, steps).1 == fresh(),
{
    let run = session::started(request);
    law_runs_forget_what_stood_before(reply, earlier, run, steps);
    lemma_set_up(earlier, Seq::empty());
    lemma_set_up(played(reply, earlier, run, steps).1, Seq::empty());
    lemma_set_up(fresh(), Seq::empty());
    let none = set_up(fresh(), Seq::empty());
    assert(none.files =~= Seq::<FileId>::empty());
    assert(none.texts =~= Map::<FileId, Seq<char>>::empty());
}

/// A request that follows another is answered as if it came alone; asked twice, it is
/// answered the same.
pub proof fn law_requests_are_independent(
    reply: spec_fn(Map<FileId, Seq<char>>, RunView) -> Event,
    first: Request,
    first_steps: nat,
    second: Request,
    second_steps: nat,
)
    ensures
        served(
            reply,
            served(reply, fresh(), first, first_steps).1,
            second,
            second_steps,
        ) == served(reply, fresh(), second, second_steps),
        served(
            reply,
            served(reply, fresh(), first, first_steps).1,
            first,
            first_steps,
        ) == served(reply, fresh(), first, first_steps),
{
    law_served_like_fresh(reply, fresh(), first, first_steps);
}

} // verus!
