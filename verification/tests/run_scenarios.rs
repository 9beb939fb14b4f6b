use std::collections::{HashMap, HashSet};
use tractor_cli::entry::{DirEntry, PathKind};
use tractor_cli::outcome::{Error, Outcome, SkipReason};
use tractor_cli::protocol::{Action, Event, Step};
use tractor_cli::run::ImportRun;

fn paths(names: &[&str]) -> Vec<String> {
    names.iter().map(|n| n.to_string()).collect()
}

fn entry(path: &str, modified: i128, is_file: bool) -> DirEntry {
    DirEntry { path: path.to_string(), modified, is_file }
}

fn imported(source: &str, target: &str) -> Outcome {
    Outcome::Imported { source: source.to_string(), target: target.to_string() }
}

fn skipped(source: &str, reason: SkipReason) -> Outcome {
    Outcome::Skipped { source: source.to_string(), reason }
}

fn opened(inputs: &[&str]) -> (ImportRun, Action) {
    let mut run = ImportRun::new("import".to_string(), paths(inputs));
    assert_eq!(run.pending(), Action::Open { resource: "import".to_string() });
    let step = run.step(Event::Opened(Ok(())));
    assert_eq!(step.outcome, None);
    (run, step.action)
}

/// A file system and a resource that holds files by their contents and
/// takes those whose path ends in ".png".
struct Shelf {
    dirs: HashMap<String, Vec<DirEntry>>,
    files: HashMap<String, String>,
    held: HashSet<String>,
    stored: Vec<(u128, String)>,
    asked: Vec<Action>,
}

impl Shelf {
    fn new() -> Shelf {
        Shelf {
            dirs: HashMap::new(),
            files: HashMap::new(),
            held: HashSet::new(),
            stored: Vec::new(),
            asked: Vec::new(),
        }
    }

    fn file(&mut self, path: &str, contents: &str) {
        self.files.insert(path.to_string(), contents.to_string());
    }

    fn dir(&mut self, path: &str, entries: Vec<DirEntry>) {
        self.dirs.insert(path.to_string(), entries);
    }

    fn answer(&mut self, action: &Action) -> Event {
        self.asked.push(action.clone());
        match action {
            Action::Open { .. } => Event::Opened(Ok(())),
            Action::Probe { path } => Event::Probed(if self.dirs.contains_key(path) {
                PathKind::Directory
            } else if self.files.contains_key(path) {
                PathKind::File
            } else {
                PathKind::Missing
            }),
            Action::List { path } => Event::Listed(Ok(self.dirs[path].clone())),
            Action::Contains { path } => Event::Contained(Ok(self.held.contains(&self.files[path]))),
            Action::Accepts { path } => Event::Accepted(path.ends_with(".png")),
            Action::Ingest { id, path } => {
                self.held.insert(self.files[path].clone());
                self.stored.push((*id, path.clone()));
                Event::Ingested(Ok(format!("store/{:032x}", id)))
            }
            Action::Finish(_) => unreachable!(),
        }
    }

    /// Runs an import of `inputs` to its end and returns what it reported and how it ended.
    fn import(&mut self, inputs: &[&str]) -> (Vec<Outcome>, Result<(), Error>) {
        let mut run = ImportRun::new("import".to_string(), paths(inputs));
        let mut outcomes = Vec::new();
        let mut action = run.pending();
        for _ in 0..10_000 {
            if let Action::Finish(result) = action {
                return (outcomes, result);
            }
            let event = self.answer(&action);
            let step = run.step(event);
            if let Some(outcome) = step.outcome {
                outcomes.push(outcome);
            }
            action = step.action;
        }
        panic!("the run did not end");
    }
}

#[test]
fn new_file_is_probed_checked_and_stored() {
    let (mut run, action) = opened(&["a.png"]);
    assert_eq!(action, Action::Probe { path: "a.png".to_string() });
    let step = run.step(Event::Probed(PathKind::File));
    assert_eq!(step, Step { outcome: None, action: Action::Contains { path: "a.png".to_string() } });
    let step = run.step(Event::Contained(Ok(false)));
    assert_eq!(step, Step { outcome: None, action: Action::Accepts { path: "a.png".to_string() } });
    let step = run.step(Event::Accepted(true));
    assert_eq!(step.outcome, None);
    let id = match step.action {
        Action::Ingest { id, path } => {
            assert_eq!(path, "a.png");
            id
        }
        other => panic!("expected a request to store, got {:?}", other),
    };
    assert_eq!(run.pending(), Action::Ingest { id, path: "a.png".to_string() });
    let step = run.step(Event::Ingested(Ok("store/a".to_string())));
    assert_eq!(
        step,
        Step { outcome: Some(imported("a.png", "store/a")), action: Action::Finish(Ok(())) }
    );
    assert_eq!(run.pending(), Action::Finish(Ok(())));
}

#[test]
fn missing_path_halts_before_later_inputs() {
    let (mut run, action) = opened(&["a.png", "gone", "b.png"]);
    assert_eq!(action, Action::Probe { path: "a.png".to_string() });
    run.step(Event::Probed(PathKind::File));
    run.step(Event::Contained(Ok(false)));
    run.step(Event::Accepted(true));
    let step = run.step(Event::Ingested(Ok("store/1".to_string())));
    assert_eq!(step.outcome, Some(imported("a.png", "store/1")));
    assert_eq!(step.action, Action::Probe { path: "gone".to_string() });
    let step = run.step(Event::Probed(PathKind::Missing));
    let halted = Action::Finish(Err(Error::ImportPathNotFound("gone".to_string())));
    assert_eq!(step, Step { outcome: None, action: halted.clone() });
    let step = run.step(Event::Probed(PathKind::File));
    assert_eq!(step, Step { outcome: None, action: halted.clone() });
    let step = run.step(Event::Contained(Ok(false)));
    assert_eq!(step, Step { outcome: None, action: halted });
}

#[test]
fn missing_path_halts_a_whole_import() {
    let mut shelf = Shelf::new();
    shelf.file("a.png", "A");
    shelf.file("b.png", "B");
    let (outcomes, result) = shelf.import(&["a.png", "gone", "b.png"]);
    assert_eq!(outcomes.len(), 1);
    assert!(matches!(&outcomes[0], Outcome::Imported { source, .. } if source == "a.png"));
    assert_eq!(result, Err(Error::ImportPathNotFound("gone".to_string())));
    assert_eq!(shelf.stored.len(), 1);
    assert!(!shelf.asked.iter().any(|a| matches!(a, Action::Probe { path } if path == "b.png")));
    assert!(!shelf.held.contains("B"));
}

#[test]
fn directory_files_are_examined_by_modification_time() {
    let (mut run, _) = opened(&["dir"]);
    let step = run.step(Event::Probed(PathKind::Directory));
    assert_eq!(step, Step { outcome: None, action: Action::List { path: "dir".to_string() } });
    let listing = vec![
        entry("dir/c", 30, true),
        entry("dir/sub", 5, false),
        entry("dir/a", 10, true),
        entry("dir/b", 20, true),
    ];
    let step = run.step(Event::Listed(Ok(listing)));
    assert_eq!(step, Step { outcome: None, action: Action::Contains { path: "dir/a".to_string() } });
    let step = run.step(Event::Contained(Ok(true)));
    assert_eq!(step.outcome, Some(skipped("dir/a", SkipReason::AlreadyImported)));
    assert_eq!(step.action, Action::Contains { path: "dir/b".to_string() });
    run.step(Event::Contained(Ok(false)));
    let step = run.step(Event::Accepted(false));
    assert_eq!(step.outcome, Some(skipped("dir/b", SkipReason::InvalidFormat)));
    assert_eq!(step.action, Action::Contains { path: "dir/c".to_string() });
    let step = run.step(Event::Contained(Ok(true)));
    assert_eq!(step.outcome, Some(skipped("dir/c", SkipReason::AlreadyImported)));
    assert_eq!(step.action, Action::Finish(Ok(())));
}

#[test]
fn directory_import_reports_in_time_order_for_every_listing_order() {
    let a = entry("dir/a.png", 1, true);
    let b = entry("dir/b.png", 2, true);
    let c = entry("dir/c.png", 3, true);
    let listings = vec![
        vec![a.clone(), b.clone(), c.clone()],
        vec![c.clone(), b.clone(), a.clone()],
        vec![b.clone(), c.clone(), a.clone()],
    ];
    for listing in listings {
        let mut shelf = Shelf::new();
        shelf.file("dir/a.png", "A");
        shelf.file("dir/b.png", "B");
        shelf.file("dir/c.png", "C");
        shelf.dir("dir", listing);
        let (outcomes, result) = shelf.import(&["dir"]);
        assert_eq!(result, Ok(()));
        let sources: Vec<&str> = outcomes
            .iter()
            .map(|o| match o {
                Outcome::Imported { source, .. } => source.as_str(),
                Outcome::Skipped { source, .. } => source.as_str(),
            })
            .collect();
        assert_eq!(sources, vec!["dir/a.png", "dir/b.png", "dir/c.png"]);
        let stored: Vec<&str> = shelf.stored.iter().map(|(_, p)| p.as_str()).collect();
        assert_eq!(stored, vec!["dir/a.png", "dir/b.png", "dir/c.png"]);
    }
}

#[test]
fn nested_directory_is_neither_imported_nor_listed() {
    let mut shelf = Shelf::new();
    shelf.file("dir/a.png", "A");
    shelf.file("dir/sub/deep.png", "D");
    shelf.dir("dir", vec![entry("dir/sub", 1, false), entry("dir/a.png", 2, true)]);
    shelf.dir("dir/sub", vec![entry("dir/sub/deep.png", 3, true)]);
    let (outcomes, result) = shelf.import(&["dir"]);
    assert_eq!(result, Ok(()));
    assert_eq!(outcomes.len(), 1);
    assert!(matches!(&outcomes[0], Outcome::Imported { source, .. } if source == "dir/a.png"));
    for action in &shelf.asked {
        match action {
            Action::Open { .. } => {}
            Action::Probe { path } | Action::List { path } => assert_eq!(path, "dir"),
            Action::Contains { path } | Action::Accepts { path } | Action::Ingest { path, .. } => {
                assert_eq!(path, "dir/a.png")
            }
            Action::Finish(_) => {}
        }
    }
    assert!(!shelf.held.contains("D"));
}

#[test]
fn second_import_of_the_same_files_stores_nothing() {
    let mut shelf = Shelf::new();
    shelf.file("a.png", "A");
    shelf.file("dir/b.png", "B");
    shelf.file("dir/c.png", "C");
    shelf.dir("dir", vec![entry("dir/c.png", 9, true), entry("dir/b.png", 4, true)]);
    let (first, result) = shelf.import(&["a.png", "dir"]);
    assert_eq!(result, Ok(()));
    assert_eq!(first.len(), 3);
    assert!(first.iter().all(|o| matches!(o, Outcome::Imported { .. })));
    let stored_after_first = shelf.stored.clone();
    let held_after_first = shelf.held.clone();
    assert_eq!(stored_after_first.len(), 3);

    let (second, result) = shelf.import(&["a.png", "dir"]);
    assert_eq!(result, Ok(()));
    assert_eq!(
        second,
        vec![
            skipped("a.png", SkipReason::AlreadyImported),
            skipped("dir/b.png", SkipReason::AlreadyImported),
            skipped("dir/c.png", SkipReason::AlreadyImported),
        ]
    );
    assert_eq!(shelf.stored, stored_after_first);
    assert_eq!(shelf.held, held_after_first);
}

#[test]
fn file_with_contents_already_held_is_skipped_in_the_same_run() {
    let mut shelf = Shelf::new();
    shelf.file("a.png", "same");
    shelf.file("copy.png", "same");
    let (outcomes, result) = shelf.import(&["a.png", "copy.png"]);
    assert_eq!(result, Ok(()));
    assert!(matches!(&outcomes[0], Outcome::Imported { source, .. } if source == "a.png"));
    assert_eq!(outcomes[1], skipped("copy.png", SkipReason::AlreadyImported));
    assert_eq!(shelf.stored.len(), 1);
}

#[test]
fn rejected_format_is_never_stored() {
    let mut shelf = Shelf::new();
    shelf.file("notes.txt", "N");
    shelf.file("held.txt", "H");
    shelf.held.insert("H".to_string());
    let (outcomes, result) = shelf.import(&["notes.txt", "held.txt"]);
    assert_eq!(result, Ok(()));
    assert_eq!(
        outcomes,
        vec![
            skipped("notes.txt", SkipReason::InvalidFormat),
            skipped("held.txt", SkipReason::AlreadyImported),
        ]
    );
    assert!(shelf.stored.is_empty());
    assert!(!shelf.asked.iter().any(|a| matches!(a, Action::Ingest { .. })));
    let (again, _) = shelf.import(&["notes.txt", "held.txt"]);
    assert_eq!(again, outcomes);
    assert!(shelf.stored.is_empty());
}

#[test]
fn held_file_is_not_asked_about_its_format() {
    let (mut run, _) = opened(&["a.txt", "b.png"]);
    run.step(Event::Probed(PathKind::File));
    let step = run.step(Event::Contained(Ok(true)));
    assert_eq!(step.outcome, Some(skipped("a.txt", SkipReason::AlreadyImported)));
    assert_eq!(step.action, Action::Probe { path: "b.png".to_string() });
}

#[test]
fn two_files_of_one_run_get_distinct_random_identifiers() {
    let mut shelf = Shelf::new();
    shelf.file("a.png", "1234");
    shelf.file("b.png", "4321");
    let (outcomes, result) = shelf.import(&["a.png", "b.png"]);
    assert_eq!(result, Ok(()));
    assert_eq!(shelf.stored.len(), 2);
    let (first, second) = (shelf.stored[0].0, shelf.stored[1].0);
    assert_ne!(first, second);
    for id in [first, second] {
        let parsed = uuid::Uuid::from_u128(id);
        assert_eq!(parsed.get_version_num(), 4);
        assert_eq!(parsed.get_variant(), Some(uuid::Variant::RFC4122));
        assert_eq!((id >> 76) & 0xf, 4);
        assert_eq!((id >> 62) & 0x3, 2);
    }
    let targets: Vec<&str> = outcomes
        .iter()
        .map(|o| match o {
            Outcome::Imported { target, .. } => target.as_str(),
            Outcome::Skipped { .. } => panic!("both files are new"),
        })
        .collect();
    assert_ne!(targets[0], targets[1]);
}

#[test]
fn many_draws_differ_and_are_random_uuids() {
    let mut seen = HashSet::new();
    for _ in 0..200 {
        let (mut run, _) = opened(&["a.png"]);
        run.step(Event::Probed(PathKind::File));
        run.step(Event::Contained(Ok(false)));
        match run.step(Event::Accepted(true)).action {
            Action::Ingest { id, .. } => {
                assert_eq!(uuid::Uuid::from_u128(id).get_version_num(), 4);
                assert!(seen.insert(id));
            }
            other => panic!("expected a request to store, got {:?}", other),
        }
    }
}

#[test]
fn step_with_stores_under_the_given_identifier() {
    let mut run = ImportRun::new("import".to_string(), paths(&["a.png"]));
    run.step_with(Event::Opened(Ok(())), 1);
    run.step_with(Event::Probed(PathKind::File), 2);
    run.step_with(Event::Contained(Ok(false)), 3);
    let step = run.step_with(Event::Accepted(true), 0xfeed);
    assert_eq!(
        step,
        Step { outcome: None, action: Action::Ingest { id: 0xfeed, path: "a.png".to_string() } }
    );
    let step = run.step_with(Event::Accepted(true), 0xbeef);
    assert_eq!(step.action, Action::Ingest { id: 0xfeed, path: "a.png".to_string() });
    let step = run.step_with(Event::Ingested(Ok("t".to_string())), 5);
    assert_eq!(step.outcome, Some(imported("a.png", "t")));
}

#[test]
fn draws_only_on_a_positive_acceptance() {
    let (mut run, _) = opened(&["a.png"]);
    assert!(!run.draws(&Event::Accepted(true)));
    run.step(Event::Probed(PathKind::File));
    assert!(!run.draws(&Event::Accepted(true)));
    run.step(Event::Contained(Ok(false)));
    assert!(run.draws(&Event::Accepted(true)));
    assert!(!run.draws(&Event::Accepted(false)));
    assert!(!run.draws(&Event::Contained(Ok(false))));
    run.step(Event::Accepted(true));
    assert!(!run.draws(&Event::Accepted(true)));
}

#[test]
fn resource_that_cannot_be_opened_ends_the_run_at_once() {
    let mut run = ImportRun::new("media".to_string(), paths(&["a.png"]));
    assert_eq!(run.pending(), Action::Open { resource: "media".to_string() });
    let step = run.step(Event::Opened(Err("permission denied".to_string())));
    let failed = Error::ResourceError("permission denied".to_string());
    assert_eq!(step, Step { outcome: None, action: Action::Finish(Err(failed.clone())) });
    let step = run.step(Event::Opened(Ok(())));
    assert_eq!(step, Step { outcome: None, action: Action::Finish(Err(failed)) });
}

#[test]
fn containment_failure_ends_the_run() {
    let (mut run, _) = opened(&["a.png", "b.png"]);
    run.step(Event::Probed(PathKind::File));
    let step = run.step(Event::Contained(Err("index unreadable".to_string())));
    assert_eq!(
        step,
        Step {
            outcome: None,
            action: Action::Finish(Err(Error::ContainsFileError("index unreadable".to_string()))),
        }
    );
}

#[test]
fn listing_failure_ends_the_run() {
    let (mut run, _) = opened(&["dir", "b.png"]);
    run.step(Event::Probed(PathKind::Directory));
    let step = run.step(Event::Listed(Err("not readable".to_string())));
    assert_eq!(
        step,
        Step {
            outcome: None,
            action: Action::Finish(Err(Error::ReadImportsError("not readable".to_string()))),
        }
    );
}

#[test]
fn storing_failure_ends_the_run_and_reports_no_import() {
    let (mut run, _) = opened(&["a.png", "b.png"]);
    run.step(Event::Probed(PathKind::File));
    run.step(Event::Contained(Ok(false)));
    run.step(Event::Accepted(true));
    let step = run.step(Event::Ingested(Err("disk full".to_string())));
    assert_eq!(
        step,
        Step {
            outcome: None,
            action: Action::Finish(Err(Error::CopyFileError("disk full".to_string()))),
        }
    );
}

#[test]
fn files_stored_before_a_failure_stay_reported() {
    let (mut run, _) = opened(&["dir"]);
    run.step(Event::Probed(PathKind::Directory));
    run.step(Event::Listed(Ok(vec![entry("dir/a", 1, true), entry("dir/b", 2, true)])));
    run.step(Event::Contained(Ok(false)));
    run.step(Event::Accepted(true));
    let step = run.step(Event::Ingested(Ok("store/a".to_string())));
    assert_eq!(step.outcome, Some(imported("dir/a", "store/a")));
    assert_eq!(step.action, Action::Contains { path: "dir/b".to_string() });
    let step = run.step(Event::Contained(Err("gone".to_string())));
    assert_eq!(step.outcome, None);
    assert_eq!(step.action, Action::Finish(Err(Error::ContainsFileError("gone".to_string()))));
}

#[test]
fn path_that_is_neither_file_nor_directory_is_passed_over() {
    let (mut run, action) = opened(&["socket", "a.png"]);
    assert_eq!(action, Action::Probe { path: "socket".to_string() });
    let step = run.step(Event::Probed(PathKind::Other));
    assert_eq!(step, Step { outcome: None, action: Action::Probe { path: "a.png".to_string() } });
    let step = run.step(Event::Probed(PathKind::Other));
    assert_eq!(step, Step { outcome: None, action: Action::Finish(Ok(())) });
}

#[test]
fn run_without_inputs_opens_the_resource_and_ends() {
    let mut run = ImportRun::new("import".to_string(), Vec::new());
    assert_eq!(run.pending(), Action::Open { resource: "import".to_string() });
    let step = run.step(Event::Opened(Ok(())));
    assert_eq!(step, Step { outcome: None, action: Action::Finish(Ok(())) });
}

#[test]
fn empty_directory_leads_to_the_next_input() {
    let (mut run, _) = opened(&["empty", "only_dirs", "a.png"]);
    run.step(Event::Probed(PathKind::Directory));
    let step = run.step(Event::Listed(Ok(Vec::new())));
    assert_eq!(step, Step { outcome: None, action: Action::Probe { path: "only_dirs".to_string() } });
    run.step(Event::Probed(PathKind::Directory));
    let step = run.step(Event::Listed(Ok(vec![entry("only_dirs/x", 1, false)])));
    assert_eq!(step, Step { outcome: None, action: Action::Probe { path: "a.png".to_string() } });
}

#[test]
fn answer_to_another_question_changes_nothing() {
    let (mut run, action) = opened(&["a.png"]);
    assert_eq!(action, Action::Probe { path: "a.png".to_string() });
    for event in [
        Event::Opened(Ok(())),
        Event::Opened(Err("late".to_string())),
        Event::Listed(Ok(vec![entry("x", 1, true)])),
        Event::Listed(Err("x".to_string())),
        Event::Contained(Ok(true)),
        Event::Contained(Err("x".to_string())),
        Event::Accepted(true),
        Event::Accepted(false),
        Event::Ingested(Ok("t".to_string())),
        Event::Ingested(Err("x".to_string())),
    ] {
        let step = run.step(event);
        assert_eq!(step, Step { outcome: None, action: Action::Probe { path: "a.png".to_string() } });
    }
    run.step(Event::Probed(PathKind::File));
    let waiting = Action::Contains { path: "a.png".to_string() };
    for event in [
        Event::Probed(PathKind::Missing),
        Event::Accepted(true),
        Event::Ingested(Ok("t".to_string())),
    ] {
        let step = run.step(event);
        assert_eq!(step, Step { outcome: None, action: waiting.clone() });
    }
    run.step(Event::Contained(Ok(false)));
    let waiting = Action::Accepts { path: "a.png".to_string() };
    for event in [Event::Contained(Ok(true)), Event::Ingested(Ok("t".to_string()))] {
        let step = run.step(event);
        assert_eq!(step, Step { outcome: None, action: waiting.clone() });
    }
}

#[test]
fn inputs_are_taken_up_in_the_order_given() {
    let mut shelf = Shelf::new();
    shelf.file("z.png", "Z");
    shelf.file("m.png", "M");
    shelf.file("a.png", "A");
    let (outcomes, result) = shelf.import(&["z.png", "m.png", "a.png"]);
    assert_eq!(result, Ok(()));
    let sources: Vec<&str> = outcomes
        .iter()
        .map(|o| match o {
            Outcome::Imported { source, .. } => source.as_str(),
            Outcome::Skipped { source, .. } => source.as_str(),
        })
        .collect();
    assert_eq!(sources, vec!["z.png", "m.png", "a.png"]);
}

#[test]
fn error_copies_are_equal() {
    for error in [
        Error::ResourceError("r".to_string()),
        Error::ImportPathNotFound("p".to_string()),
        Error::ContainsFileError("c".to_string()),
        Error::ReadImportsError("l".to_string()),
        Error::CopyFileError("s".to_string()),
    ] {
        assert_eq!(error.clone(), error);
    }
    assert_ne!(Error::ResourceError("x".to_string()), Error::CopyFileError("x".to_string()));
}

#[test]
fn copies_of_actions_and_steps_are_equal() {
    let actions = vec![
        Action::Open { resource: "import".to_string() },
        Action::Probe { path: "p".to_string() },
        Action::List { path: "d".to_string() },
        Action::Contains { path: "f".to_string() },
        Action::Accepts { path: "f".to_string() },
        Action::Ingest { id: 7, path: "f".to_string() },
        Action::Finish(Ok(())),
        Action::Finish(Err(Error::CopyFileError("x".to_string()))),
    ];
    for action in actions {
        assert_eq!(action.clone(), action);
        let step = Step { outcome: Some(imported("a", "b")), action };
        assert_eq!(step.clone(), step);
    }
    let step = Step { outcome: None, action: Action::Finish(Ok(())) };
    assert_eq!(step.clone(), step);
}

#[test]
fn step_and_step_with_agree_where_nothing_is_drawn() {
    let script = || {
        vec![
            Event::Opened(Ok(())),
            Event::Probed(PathKind::Directory),
            Event::Listed(Ok(vec![entry("d/b", 2, true), entry("d/a", 1, true)])),
            Event::Contained(Ok(true)),
            Event::Contained(Ok(false)),
            Event::Accepted(false),
            Event::Probed(PathKind::Missing),
        ]
    };
    let mut drawn = ImportRun::new("import".to_string(), paths(&["d", "gone"]));
    let mut given = ImportRun::new("import".to_string(), paths(&["d", "gone"]));
    for (one, other) in script().into_iter().zip(script()) {
        assert_eq!(drawn.step(one), given.step_with(other, 42));
        assert_eq!(drawn.pending(), given.pending());
    }
    assert_eq!(
        drawn.pending(),
        Action::Finish(Err(Error::ImportPathNotFound("gone".to_string())))
    );
}
