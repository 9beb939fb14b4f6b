//! Whole runs: a run from its first state through any sequence of answers,
//! and what holds of every such run.

use crate::entry::PathKind;
use crate::model::{lemma_next_wf, RunModel};
use crate::outcome::{ErrorView, OutcomeView, SkipReason};
use crate::protocol::{ActionView, EventView};
use vstd::prelude::*;

verus! {

/// A run as it unfolds: the paths it was given, the answers it got, and
/// for each answer the identifier that was at hand when it came.
pub struct History {
    /// The name of the resource that the run imports into.
    pub resource: Seq<char>,
    /// The paths that the run was given.
    pub inputs: Seq<Seq<char>>,
    /// The answers, in the order in which the run got them.
    pub events: Seq<EventView>,
    /// The identifier at hand at each answer.
    pub draws: Seq<u128>,
}

impl History {
    /// The state after the first `k` answers.
    pub open spec fn state(self, k: nat) -> RunModel
        decreases k,
    {
        if k == 0 {
            RunModel::start(self.resource, self.inputs)
        } else {
            let before = (k - 1) as nat;
            self.state(before).next(self.events[before as int], self.draws[before as int])
        }
    }

    /// The operation that the run waits for after the first `k` answers.
    pub open spec fn request(self, k: nat) -> ActionView {
        self.state(k).pending()
    }

    /// The outcome that answer `k` settles, if it settles one.
    pub open spec fn outcome(self, k: nat) -> Option<OutcomeView> {
        self.state(k).outcome(self.events[k as int])
    }

    /// Whether answer `k` has a file stored.
    pub open spec fn stores(self, k: nat) -> bool {
        self.state(k).draws(self.events[k as int])
    }
}

/// Every state of a run is well-formed, and the inputs it has before it
/// are the last of those it was given.
pub proof fn lemma_state_wf(h: History, k: nat)
    ensures
        h.state(k).wf(),
        exists|done: int|
            0 <= done <= h.inputs.len() && #[trigger] h.inputs.skip(done) == h.state(k).inputs,
    decreases k,
{
    if k == 0 {
        assert(h.inputs.skip(0) =~= h.inputs);
    } else {
        let before = (k - 1) as nat;
        lemma_state_wf(h, before);
        lemma_next_wf(h.state(before), h.events[before as int], h.draws[before as int]);
        let done = choose|done: int|
            0 <= done <= h.inputs.len() && #[trigger] h.inputs.skip(done) == h.state(before).inputs;
        let now = h.state(k).inputs;
        if now == h.state(before).inputs {
        } else {
            assert(now == h.state(before).inputs.drop_first());
            assert(h.state(before).inputs.len() > 0);
            assert(h.inputs.skip(done + 1) =~= now);
        }
    }
}

/// A run asks to have a file stored only after the resource said, in that
/// run, that it takes the file's format. Whether the resource holds the
/// file plays no part in this.
pub proof fn law_stored_only_if_accepted(h: History, k: nat)
    requires
        h.request(k) is Ingest,
    ensures
        exists|j: nat|
            j < k && h.events[j as int] == EventView::Accepted(true) && #[trigger] h.request(j)
                == (ActionView::Accepts { path: h.request(k)->Ingest_path }),
    decreases k,
{
    lemma_state_wf(h, k);
    if k == 0 {
    } else {
        let before = (k - 1) as nat;
        lemma_state_wf(h, before);
        if h.state(before).phase is Ingesting {
            assert(h.state(k) == h.state(before));
            law_stored_only_if_accepted(h, before);
            let asked = ActionView::Accepts { path: h.request(before)->Ingest_path };
            let j = choose|j: nat|
                j < before && h.events[j as int] == EventView::Accepted(true)
                    && #[trigger] h.request(j) == asked;
            assert(j < k && h.request(j) == (ActionView::Accepts {
                path: h.request(k)->Ingest_path,
            }));
        } else {
            assert(h.state(before).phase is Accepting);
            assert(h.request(before) == (ActionView::Accepts { path: h.request(k)->Ingest_path }));
        }
    }
}

/// A file is reported as imported only after the resource said, in that
/// run, that it takes the file's format.
pub proof fn law_imported_only_if_accepted(h: History, k: nat)
    requires
        h.outcome(k) is Some,
        h.outcome(k)->0 is Imported,
    ensures
        exists|j: nat|
            j < k && h.events[j as int] == EventView::Accepted(true) && #[trigger] h.request(j)
                == (ActionView::Accepts { path: h.outcome(k)->0->Imported_source }),
{
    law_stored_only_if_accepted(h, k);
}

/// In a run in which the resource says of every file that it holds it, no
/// file is stored, the resource is not asked about any format, and every
/// file is reported as already imported.
pub proof fn law_held_files_are_only_skipped(h: History, k: nat)
    requires
        k <= h.events.len(),
        forall|j: int|
            0 <= j < h.events.len() && #[trigger] h.events[j] is Contained ==> h.events[j]
                == EventView::Contained(Ok(true)),
    ensures
        !(h.request(k) is Accepts),
        !(h.request(k) is Ingest),
        k < h.events.len() ==> (h.outcome(k) matches Some(outcome) ==> outcome
            == (OutcomeView::Skipped {
            source: h.state(k).files.first(),
            reason: SkipReason::AlreadyImported,
        })),
    decreases k,
{
    if k > 0 {
        let before = (k - 1) as nat;
        law_held_files_are_only_skipped(h, before);
        assert(h.events[before as int] is Contained ==> h.events[before as int]
            == EventView::Contained(Ok(true)));
    }
    if k < h.events.len() {
        assert(h.events[k as int] is Contained ==> h.events[k as int] == EventView::Contained(
            Ok(true),
        ));
    }
}

/// Once a run is over it asks for nothing more and reports nothing more,
/// whatever it is told.
pub proof fn law_finished_stays_finished(h: History, j: nat, k: nat)
    requires
        j <= k,
        h.state(j).phase is Finished,
    ensures
        h.state(k) == h.state(j),
        h.request(k) == ActionView::Finish(h.state(j).result()),
        h.outcome(k) is None,
    decreases k,
{
    if j < k {
        law_finished_stays_finished(h, j, (k - 1) as nat);
    }
}

/// The error that `event` makes of the operation `request`, if it tells of
/// its failure.
pub open spec fn failure_of(request: ActionView, event: EventView) -> Option<ErrorView> {
    match (request, event) {
        (ActionView::Open { .. }, EventView::Opened(Err(detail))) => Some(
            ErrorView::ResourceError(detail),
        ),
        (ActionView::Probe { path }, EventView::Probed(PathKind::Missing)) => Some(
            ErrorView::ImportPathNotFound(path),
        ),
        (ActionView::List { .. }, EventView::Listed(Err(detail))) => Some(
            ErrorView::ReadImportsError(detail),
        ),
        (ActionView::Contains { .. }, EventView::Contained(Err(detail))) => Some(
            ErrorView::ContainsFileError(detail),
        ),
        (ActionView::Ingest { .. }, EventView::Ingested(Err(detail))) => Some(
            ErrorView::CopyFileError(detail),
        ),
        _ => None,
    }
}

/// The first failure ends the run with its error: the failed operation
/// settles no outcome, and from then on the run asks for nothing and takes
/// up none of the paths and files that were still before it.
pub proof fn law_failure_ends_run(h: History, j: nat, k: nat)
    requires
        j < k,
        failure_of(h.request(j), h.events[j as int]) is Some,
    ensures
        h.outcome(j) is None,
        h.request(k) == ActionView::Finish(Err(failure_of(h.request(j), h.events[j as int])->0)),
        h.outcome(k) is None,
{
    lemma_state_wf(h, j);
    law_finished_stays_finished(h, j + 1, k);
}

/// A run ends with an error only where an operation failed, and with the
/// error of that failure.
pub proof fn law_run_fails_only_on_failure(h: History, k: nat)
    requires
        h.state(k).failure is Some,
    ensures
        exists|j: nat|
            j < k && #[trigger] failure_of(h.request(j), h.events[j as int]) == h.state(k).failure,
    decreases k,
{
    if k > 0 {
        let before = (k - 1) as nat;
        lemma_state_wf(h, before);
        if h.state(before).failure is Some {
            assert(h.state(k) == h.state(before));
            law_run_fails_only_on_failure(h, before);
            let j = choose|j: nat|
                j < before && #[trigger] failure_of(h.request(j), h.events[j as int]) == h.state(
                    before,
                ).failure;
            assert(j < k && failure_of(h.request(j), h.events[j as int]) == h.state(k).failure);
        } else {
            assert(failure_of(h.request(before), h.events[before as int]) == h.state(k).failure);
        }
    }
}

/// The only paths that a run probes or lists are those it was given: no
/// entry of a listed directory is listed in its turn.
pub proof fn law_only_inputs_are_listed(h: History, k: nat)
    ensures
        h.request(k) matches ActionView::Probe { path } ==> h.inputs.contains(path),
        h.request(k) matches ActionView::List { path } ==> h.inputs.contains(path),
{
    lemma_state_wf(h, k);
    let done = choose|done: int|
        0 <= done <= h.inputs.len() && #[trigger] h.inputs.skip(done) == h.state(k).inputs;
    if h.state(k).phase is Probing || h.state(k).phase is Listing {
        assert(h.state(k).inputs.first() == h.inputs[done]);
    }
}

/// Each request to store a file carries the identifier that was at hand at
/// its own step: identifiers are neither kept for later nor worked out
/// from the file.
pub proof fn law_stored_under_own_draw(h: History, k: nat)
    requires
        h.stores(k),
    ensures
        h.request(k + 1) == (ActionView::Ingest {
            id: h.draws[k as int],
            path: h.request(k)->Accepts_path,
        }),
{
}

/// Where no identifier is drawn twice, no two requests of a run store
/// under the same identifier.
pub proof fn law_distinct_draws_distinct_ids(h: History, j: nat, k: nat)
    requires
        h.draws.no_duplicates(),
        j < k < h.draws.len(),
        h.stores(j),
        h.stores(k),
    ensures
        h.request(j + 1)->Ingest_id != h.request(k + 1)->Ingest_id,
{
    law_stored_under_own_draw(h, j);
    law_stored_under_own_draw(h, k);
}

} // verus!
