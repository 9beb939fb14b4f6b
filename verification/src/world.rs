//! A run in its surroundings: a file system that stays as it is, and a
//! resource that holds a file once the file was stored in it.

use crate::entry::{DirEntryView, PathKind};
use crate::model::{lemma_next_wf, Phase, RunModel};
use crate::outcome::{ErrorView, OutcomeView, SkipReason};
use crate::protocol::{ActionView, EventView};
use crate::scan::import_paths;
use vstd::prelude::*;

verus! {

/// What a run's answers depend on and no run changes.
pub struct Setting {
    /// What is at each path.
    pub kinds: spec_fn(Seq<char>) -> PathKind,
    /// The entries of each directory, as the directory lists them.
    pub listings: spec_fn(Seq<char>) -> Seq<DirEntryView>,
    /// What the resource goes by to tell whether it holds the file at a
    /// path: it holds the file when it holds this.
    pub contents: spec_fn(Seq<char>) -> int,
    /// Whether the resource takes the format of the file at a path.
    pub accepts: spec_fn(Seq<char>) -> bool,
    /// Where the resource stores the file at a path under an identifier.
    pub targets: spec_fn(u128, Seq<char>) -> Seq<char>,
}

impl Setting {
    /// The files that an import of `inputs` examines, in order: each input
    /// that is a file, the regular files of each input that is a
    /// directory, and nothing from the first missing input on.
    pub open spec fn plan(self, inputs: Seq<Seq<char>>) -> Seq<Seq<char>>
        decreases inputs.len(),
    {
        if inputs.len() == 0 {
            Seq::empty()
        } else {
            let rest = inputs.drop_first();
            match (self.kinds)(inputs.first()) {
                PathKind::Missing => Seq::empty(),
                PathKind::File => seq![inputs.first()] + self.plan(rest),
                PathKind::Directory => import_paths((self.listings)(inputs.first())) + self.plan(
                    rest,
                ),
                PathKind::Other => self.plan(rest),
            }
        }
    }

    /// The first of `inputs` at which nothing exists, if there is one.
    pub open spec fn first_missing(self, inputs: Seq<Seq<char>>) -> Option<Seq<char>>
        decreases inputs.len(),
    {
        if inputs.len() == 0 {
            None
        } else if (self.kinds)(inputs.first()) == PathKind::Missing {
            Some(inputs.first())
        } else {
            self.first_missing(inputs.drop_first())
        }
    }

    /// How many operations an import of `inputs` takes at most, the opening
    /// of the resource left aside.
    pub open spec fn work(self, inputs: Seq<Seq<char>>) -> int
        decreases inputs.len(),
    {
        if inputs.len() == 0 {
            0
        } else {
            let here = match (self.kinds)(inputs.first()) {
                PathKind::Missing => 1,
                PathKind::File => 4,
                PathKind::Directory => 2 + 3 * import_paths((self.listings)(inputs.first())).len(),
                PathKind::Other => 1,
            };
            here + self.work(inputs.drop_first())
        }
    }
}

/// A run together with what the resource holds.
pub struct Scene {
    /// The surroundings of the run.
    pub setting: Setting,
    /// The contents that the resource holds.
    pub held: Set<int>,
    /// The paths under which the resource has stored files.
    pub stored: Set<Seq<char>>,
    /// The state of the run.
    pub run: RunModel,
}

impl Scene {
    /// A run of `inputs` at its start, with a resource that holds `held`.
    pub open spec fn opening(
        setting: Setting,
        held: Set<int>,
        stored: Set<Seq<char>>,
        resource: Seq<char>,
        inputs: Seq<Seq<char>>,
    ) -> Scene {
        Scene { setting, held, stored, run: RunModel::start(resource, inputs) }
    }

    /// How the operation that the run waits for goes. Nothing fails here;
    /// a run that is over waits for nothing.
    pub open spec fn answer(self) -> Option<EventView> {
        match self.run.pending() {
            ActionView::Open { .. } => Some(EventView::Opened(Ok(()))),
            ActionView::Probe { path } => Some(EventView::Probed((self.setting.kinds)(path))),
            ActionView::List { path } => Some(EventView::Listed(Ok((self.setting.listings)(path)))),
            ActionView::Contains { path } => Some(
                EventView::Contained(Ok(self.held.contains((self.setting.contents)(path)))),
            ),
            ActionView::Accepts { path } => Some(EventView::Accepted((self.setting.accepts)(path))),
            ActionView::Ingest { id, path } => Some(
                EventView::Ingested(Ok((self.setting.targets)(id, path))),
            ),
            ActionView::Finish(_) => None,
        }
    }

    /// The scene once the operation that the run waits for is carried out
    /// and the run has taken the answer. `draw` is the identifier at hand.
    pub open spec fn advance(self, draw: u128) -> Scene {
        match self.answer() {
            Some(event) => {
                let run = self.run.next(event, draw);
                match self.run.pending() {
                    ActionView::Ingest { id, path } => Scene {
                        held: self.held.insert((self.setting.contents)(path)),
                        stored: self.stored.insert((self.setting.targets)(id, path)),
                        run,
                        ..self
                    },
                    _ => Scene { run, ..self },
                }
            },
            None => self,
        }
    }

    /// The outcome that the next answer settles, if it settles one.
    pub open spec fn outcome(self) -> Option<OutcomeView> {
        match self.answer() {
            Some(event) => self.run.outcome(event),
            None => None,
        }
    }

    /// The scene `k` operations on.
    pub open spec fn after(self, draws: Seq<u128>, k: nat) -> Scene
        decreases k,
    {
        if k == 0 {
            self
        } else {
            let before = (k - 1) as nat;
            self.after(draws, before).advance(draws[before as int])
        }
    }

    /// The files that the first `k` operations have settled an outcome
    /// for, in the order of the outcomes.
    pub open spec fn reported(self, draws: Seq<u128>, k: nat) -> Seq<Seq<char>>
        decreases k,
    {
        if k == 0 {
            Seq::empty()
        } else {
            let before = (k - 1) as nat;
            match self.after(draws, before).outcome() {
                Some(outcome) => self.reported(draws, before).push(outcome.source()),
                None => self.reported(draws, before),
            }
        }
    }

    /// The files that the run has yet to be done with.
    pub open spec fn ahead(self) -> Seq<Seq<char>> {
        match self.run.phase {
            Phase::Opening | Phase::Probing => self.setting.plan(self.run.inputs),
            Phase::Listing => import_paths((self.setting.listings)(self.run.inputs.first()))
                + self.setting.plan(self.run.inputs.drop_first()),
            Phase::Containing | Phase::Accepting | Phase::Ingesting { .. } => self.run.files
                + self.setting.plan(self.run.inputs.drop_first()),
            Phase::Finished => Seq::empty(),
        }
    }

    /// How many operations the run takes at most before it is over.
    pub open spec fn effort(self) -> int {
        let later = self.setting.work(self.run.inputs.drop_first());
        match self.run.phase {
            Phase::Opening => 1 + self.setting.work(self.run.inputs),
            Phase::Probing => self.setting.work(self.run.inputs),
            Phase::Listing => 1 + 3 * import_paths(
                (self.setting.listings)(self.run.inputs.first()),
            ).len() + later,
            Phase::Containing => 3 * self.run.files.len() + later,
            Phase::Accepting => 3 * self.run.files.len() - 1 + later,
            Phase::Ingesting { .. } => 3 * self.run.files.len() - 2 + later,
            Phase::Finished => 0,
        }
    }

    /// Whether the resource would leave the file at `path` where it is:
    /// it holds the file, or does not take its format.
    pub open spec fn settled(self, path: Seq<char>) -> bool {
        (self.setting.accepts)(path) ==> self.held.contains((self.setting.contents)(path))
    }
}

/// One operation on: the run stays well-formed, the resource loses
/// nothing, no file is added to those ahead, and a file that is no longer
/// ahead is settled.
proof fn lemma_advance(scene: Scene, draw: u128)
    requires
        scene.run.wf(),
    ensures
        scene.advance(draw).run.wf(),
        scene.advance(draw).setting == scene.setting,
        scene.held.subset_of(scene.advance(draw).held),
        forall|path: Seq<char>| #[trigger]
            scene.advance(draw).ahead().contains(path) ==> scene.ahead().contains(path),
        forall|path: Seq<char>| #[trigger]
            scene.ahead().contains(path) ==> scene.advance(draw).ahead().contains(path)
                || scene.advance(draw).settled(path),
        match scene.outcome() {
            Some(outcome) => {
                &&& scene.ahead().len() > 0
                &&& outcome.source() == scene.ahead().first()
                &&& scene.advance(draw).ahead() == scene.ahead().drop_first()
            },
            None => scene.advance(draw).ahead() == scene.ahead(),
        },
{
    let next = scene.advance(draw);
    let run = scene.run;
    let rest = scene.setting.plan(run.inputs.drop_first());
    match scene.answer() {
        Some(event) => {
            lemma_next_wf(run, event, draw);
        },
        None => {},
    }
    match run.phase {
        Phase::Opening => {
            assert(next.ahead() =~= scene.ahead());
        },
        Phase::Probing => {
            assert(next.ahead() =~= scene.ahead());
        },
        Phase::Listing => {
            assert(next.ahead() =~= scene.ahead());
        },
        Phase::Containing => {
            let file = run.files.first();
            if scene.held.contains((scene.setting.contents)(file)) {
                assert(next.ahead() =~= run.files.drop_first() + rest);
                assert(scene.ahead().drop_first() =~= run.files.drop_first() + rest);
                lemma_ahead_without_first(run.files, rest);
            } else {
                assert(next.ahead() =~= scene.ahead());
            }
        },
        Phase::Accepting => {
            let file = run.files.first();
            if (scene.setting.accepts)(file) {
                assert(next.ahead() =~= scene.ahead());
            } else {
                assert(next.ahead() =~= run.files.drop_first() + rest);
                assert(scene.ahead().drop_first() =~= run.files.drop_first() + rest);
                lemma_ahead_without_first(run.files, rest);
            }
        },
        Phase::Ingesting { .. } => {
            assert(next.ahead() =~= run.files.drop_first() + rest);
            assert(scene.ahead().drop_first() =~= run.files.drop_first() + rest);
            lemma_ahead_without_first(run.files, rest);
        },
        Phase::Finished => {},
    }
}

/// What is among `files + rest` is the first of `files` or among the others.
proof fn lemma_ahead_without_first(files: Seq<Seq<char>>, rest: Seq<Seq<char>>)
    requires
        files.len() > 0,
    ensures
        forall|path: Seq<char>| #[trigger]
            (files.drop_first() + rest).contains(path) ==> (files + rest).contains(path),
        forall|path: Seq<char>| #[trigger]
            (files + rest).contains(path) ==> path == files.first() || (files.drop_first()
                + rest).contains(path),
{
    let shorter = files.drop_first() + rest;
    let longer = files + rest;
    assert forall|path: Seq<char>| #[trigger] shorter.contains(path) implies longer.contains(
        path,
    ) by {
        let i = choose|i: int| 0 <= i < shorter.len() && shorter[i] == path;
        assert(longer[i + 1] == path);
    }
    assert forall|path: Seq<char>| #[trigger] longer.contains(path) implies path == files.first()
        || shorter.contains(path) by {
        let i = choose|i: int| 0 <= i < longer.len() && longer[i] == path;
        if i > 0 {
            assert(shorter[i - 1] == path);
        }
    }
}

/// At any point of a run, each file of its plan is still ahead or settled.
proof fn lemma_plan_is_worked_off(start: Scene, draws: Seq<u128>, k: nat)
    requires
        start.run.phase is Opening,
        start.run.wf(),
    ensures
        start.after(draws, k).run.wf(),
        start.after(draws, k).setting == start.setting,
        forall|path: Seq<char>| #[trigger]
            start.ahead().contains(path) ==> start.after(draws, k).ahead().contains(path)
                || start.after(draws, k).settled(path),
    decreases k,
{
    if k > 0 {
        let before = (k - 1) as nat;
        let scene = start.after(draws, before);
        lemma_plan_is_worked_off(start, draws, before);
        lemma_advance(scene, draws[before as int]);
        let next = scene.advance(draws[before as int]);
        assert forall|path: Seq<char>| #[trigger]
            start.ahead().contains(path) implies next.ahead().contains(path) || next.settled(
            path,
        ) by {
            if scene.ahead().contains(path) {
            } else {
                assert(scene.settled(path));
            }
        }
    }
}

/// Whether nothing is left for a run to store: every file ahead of it is
/// settled, and the run is not about to have the file in hand stored.
spec fn nothing_to_store(scene: Scene) -> bool {
    &&& scene.run.wf()
    &&& forall|path: Seq<char>| #[trigger] scene.ahead().contains(path) ==> scene.settled(path)
    &&& !(scene.run.phase is Ingesting)
    &&& scene.run.phase is Accepting ==> !scene.held.contains(
        (scene.setting.contents)(scene.run.files.first()),
    )
}

/// A run that has nothing to store stores nothing, and still has nothing to store.
proof fn lemma_nothing_stored(scene: Scene, draw: u128)
    requires
        nothing_to_store(scene),
    ensures
        nothing_to_store(scene.advance(draw)),
        scene.advance(draw).held == scene.held,
        scene.advance(draw).stored == scene.stored,
        scene.advance(draw).setting == scene.setting,
        scene.outcome() matches Some(outcome) ==> {
            &&& outcome matches OutcomeView::Skipped { source, reason }
            &&& source == scene.run.files.first()
            &&& (scene.setting.accepts)(source) ==> reason == SkipReason::AlreadyImported
        },
{
    lemma_advance(scene, draw);
    let next = scene.advance(draw);
    if scene.run.phase is Containing || scene.run.phase is Accepting {
        let file = scene.run.files.first();
        assert((scene.run.files + scene.setting.plan(scene.run.inputs.drop_first()))[0] == file);
        assert(scene.ahead().contains(file));
    }
    assert forall|path: Seq<char>| #[trigger] next.ahead().contains(path) implies next.settled(
        path,
    ) by {
        assert(scene.ahead().contains(path));
    }
}

/// Importing the same paths once more into the same resource stores
/// nothing. Once a run is over, any later run of the same inputs, in the
/// same surroundings and with the resource as the first run left it,
/// never asks to have a file stored and leaves the resource as it is; it
/// reports each file that it examines as skipped, and as already imported
/// where the resource takes the file's format.
pub proof fn law_second_import_stores_nothing(
    first: Scene,
    draws: Seq<u128>,
    n: nat,
    again: Seq<u128>,
    k: nat,
)
    requires
        first.run.phase is Opening,
        first.run.wf(),
        first.after(draws, n).run.phase is Finished,
    ensures
        ({
            let done = first.after(draws, n);
            let second = Scene::opening(
                first.setting,
                done.held,
                done.stored,
                first.run.resource,
                first.run.inputs,
            );
            let later = second.after(again, k);
            &&& later.held == done.held
            &&& later.stored == done.stored
            &&& !(later.run.pending() is Ingest)
            &&& later.outcome() matches Some(outcome) ==> {
                &&& outcome matches OutcomeView::Skipped { source, reason }
                &&& (first.setting.accepts)(source) ==> reason == SkipReason::AlreadyImported
            }
        }),
{
    let done = first.after(draws, n);
    let second = Scene::opening(
        first.setting,
        done.held,
        done.stored,
        first.run.resource,
        first.run.inputs,
    );
    lemma_plan_is_worked_off(first, draws, n);
    assert(nothing_to_store(second)) by {
        assert forall|path: Seq<char>| #[trigger]
            second.ahead().contains(path) implies second.settled(path) by {
            assert(first.ahead().contains(path));
            assert(done.ahead() =~= Seq::empty());
            assert(done.settled(path));
        }
    }
    lemma_second_run(second, again, k);
    lemma_nothing_stored(second.after(again, k), 0);
}

/// A run that starts with nothing to store never has anything to store.
proof fn lemma_second_run(second: Scene, again: Seq<u128>, k: nat)
    requires
        nothing_to_store(second),
    ensures
        nothing_to_store(second.after(again, k)),
        second.after(again, k).held == second.held,
        second.after(again, k).stored == second.stored,
        second.after(again, k).setting == second.setting,
    decreases k,
{
    if k > 0 {
        let before = (k - 1) as nat;
        lemma_second_run(second, again, before);
        lemma_nothing_stored(second.after(again, before), again[before as int]);
    }
}

/// A run reports on the files of its plan, in the plan's order and each
/// once: at any point, the files reported so far and the files still
/// ahead make up the plan. So the files of a directory are reported by
/// ascending modification time, and nothing is reported that lies below a
/// directory's own entries.
pub proof fn law_reports_follow_plan(start: Scene, draws: Seq<u128>, k: nat)
    requires
        start.run.phase is Opening,
        start.run.wf(),
    ensures
        start.reported(draws, k) + start.after(draws, k).ahead() == start.setting.plan(
            start.run.inputs,
        ),
    decreases k,
{
    if k == 0 {
        assert(start.reported(draws, 0) + start.ahead() =~= start.ahead());
    } else {
        let before = (k - 1) as nat;
        let scene = start.after(draws, before);
        law_reports_follow_plan(start, draws, before);
        lemma_plan_is_worked_off(start, draws, before);
        lemma_advance(scene, draws[before as int]);
        let told = start.reported(draws, before);
        match scene.outcome() {
            Some(outcome) => {
                assert(told.push(outcome.source()) + scene.ahead().drop_first() =~= told
                    + scene.ahead());
            },
            None => {},
        }
    }
}

/// A file whose format the resource does not take is never stored,
/// whether the resource holds it or not: a run asks to have stored, and
/// reports as imported, only files whose format the resource takes.
pub proof fn law_rejected_format_is_never_stored(start: Scene, draws: Seq<u128>, k: nat)
    requires
        start.run.phase is Opening,
        start.run.wf(),
    ensures
        start.after(draws, k).run.pending() matches ActionView::Ingest { path, .. } ==> (
        start.setting.accepts)(path),
        start.after(draws, k).outcome() matches Some(OutcomeView::Imported { source, .. }) ==> (
        start.setting.accepts)(source),
{
    if start.after(draws, k).run.phase is Ingesting {
        lemma_stored_under_last_draw(start, draws, k);
    }
}

/// Where no identifier is drawn twice and the resource never stores under
/// one path what came under two identifiers, no two files imported in a
/// run are stored under the same path.
pub proof fn law_imports_get_distinct_targets(start: Scene, draws: Seq<u128>, j: nat, k: nat)
    requires
        start.run.phase is Opening,
        start.run.wf(),
        draws.no_duplicates(),
        forall|a: u128, b: u128, p: Seq<char>, q: Seq<char>|
            a != b ==> #[trigger] (start.setting.targets)(a, p) != #[trigger] (
            start.setting.targets)(b, q),
        j < k <= draws.len(),
        start.after(draws, j).outcome() matches Some(OutcomeView::Imported { .. }),
        start.after(draws, k).outcome() matches Some(OutcomeView::Imported { .. }),
    ensures
        start.after(draws, j).outcome()->0->Imported_target != start.after(
            draws,
            k,
        ).outcome()->0->Imported_target,
{
    lemma_stored_under_last_draw(start, draws, j);
    lemma_stored_under_last_draw(start, draws, k);
    let first = start.after(draws, j).run;
    let second = start.after(draws, k).run;
    assert(first.phase->Ingesting_id == draws[j - 1]);
    assert(second.phase->Ingesting_id == draws[k - 1]);
}

/// A run that is having a file stored took the identifier for it at the
/// operation just before, where the resource said that it takes the file.
proof fn lemma_stored_under_last_draw(start: Scene, draws: Seq<u128>, k: nat)
    requires
        start.run.phase is Opening,
        start.run.wf(),
        start.after(draws, k).run.phase is Ingesting,
    ensures
        k > 0,
        start.after(draws, k).run.phase == (Phase::Ingesting { id: draws[k - 1] }),
        start.after(draws, k).setting == start.setting,
        (start.setting.accepts)(start.after(draws, k).run.files.first()),
{
    lemma_plan_is_worked_off(start, draws, k);
    if k > 0 {
        let before = (k - 1) as nat;
        lemma_plan_is_worked_off(start, draws, before);
    }
}

/// No import takes a negative number of operations.
proof fn lemma_work_is_natural(setting: Setting, inputs: Seq<Seq<char>>)
    ensures
        setting.work(inputs) >= 0,
        inputs.len() > 0 ==> setting.work(inputs) >= 1,
    decreases inputs.len(),
{
    if inputs.len() > 0 {
        lemma_work_is_natural(setting, inputs.drop_first());
    }
}

/// Each operation of a run that is not over brings it one nearer to its end.
proof fn lemma_effort_shrinks(scene: Scene, draw: u128)
    requires
        scene.run.wf(),
        !(scene.run.phase is Finished),
    ensures
        0 <= scene.advance(draw).effort() < scene.effort(),
{
    let run = scene.run;
    lemma_work_is_natural(scene.setting, run.inputs);
    lemma_work_is_natural(scene.setting, run.inputs.drop_first());
    if run.phase is Probing && (scene.setting.kinds)(run.inputs.first()) == PathKind::File {
        assert(seq![run.inputs.first()].len() == 1);
    }
}

/// After `k` operations a run is over or has used up `k` of its effort.
proof fn lemma_effort_left(start: Scene, draws: Seq<u128>, k: nat)
    requires
        start.run.wf(),
    ensures
        start.after(draws, k).run.wf(),
        start.after(draws, k).run.phase is Finished || 0 <= start.after(draws, k).effort()
            <= start.effort() - k,
    decreases k,
{
    if k == 0 {
        lemma_work_is_natural(start.setting, start.run.inputs);
        lemma_work_is_natural(start.setting, start.run.inputs.drop_first());
    } else {
        let before = (k - 1) as nat;
        let scene = start.after(draws, before);
        lemma_effort_left(start, draws, before);
        lemma_advance(scene, draws[before as int]);
        if !(scene.run.phase is Finished) {
            lemma_effort_shrinks(scene, draws[before as int]);
        }
    }
}

/// Where no operation fails, every run comes to its end: it is over after
/// as many operations as its effort, and stays so.
pub proof fn law_run_ends(start: Scene, draws: Seq<u128>, k: nat)
    requires
        start.run.wf(),
        k >= start.effort(),
    ensures
        start.after(draws, k).run.phase is Finished,
{
    lemma_effort_left(start, draws, k);
    let scene = start.after(draws, k);
    if !(scene.run.phase is Finished) {
        lemma_work_is_natural(scene.setting, scene.run.inputs);
        lemma_work_is_natural(scene.setting, scene.run.inputs.drop_first());
    }
}

/// While a run is under way it has not failed, the input in hand exists
/// once it was probed, and the first missing input is still before it;
/// once it is over, it has failed just if an input was missing.
spec fn on_course(start: Scene, scene: Scene) -> bool {
    let missing = start.setting.first_missing(start.run.inputs);
    match scene.run.phase {
        Phase::Opening | Phase::Probing => {
            &&& scene.run.failure is None
            &&& scene.setting.first_missing(scene.run.inputs) == missing
        },
        Phase::Finished => scene.run.failure == match missing {
            Some(path) => Some(ErrorView::ImportPathNotFound(path)),
            None => None,
        },
        _ => {
            &&& scene.run.failure is None
            &&& scene.setting.first_missing(scene.run.inputs.drop_first()) == missing
        },
    }
}

/// A run stays on course from its start.
proof fn lemma_on_course(start: Scene, draws: Seq<u128>, k: nat)
    requires
        start.run.phase is Opening,
        start.run.wf(),
    ensures
        start.after(draws, k).run.wf(),
        start.after(draws, k).setting == start.setting,
        on_course(start, start.after(draws, k)),
    decreases k,
{
    if k > 0 {
        let before = (k - 1) as nat;
        let scene = start.after(draws, before);
        lemma_on_course(start, draws, before);
        lemma_advance(scene, draws[before as int]);
    }
}

/// Where no operation fails but the probing of a path at which nothing
/// exists, a run that is over has ended with `ImportPathNotFound` for the
/// first such path among those it was given, and without error if there
/// is none.
pub proof fn law_run_fails_on_first_missing_input(start: Scene, draws: Seq<u128>, k: nat)
    requires
        start.run.phase is Opening,
        start.run.wf(),
        start.after(draws, k).run.phase is Finished,
    ensures
        start.after(draws, k).run.result() == match start.setting.first_missing(start.run.inputs) {
            Some(path) => Err(ErrorView::ImportPathNotFound(path)),
            None => Ok(()),
        },
{
    lemma_on_course(start, draws, k);
}

} // verus!
