use std::cell::RefCell;
use std::collections::HashMap;
use std::rc::Rc;
use uuid::Uuid;
use vectorctl::{
    Action, Applied, Direction, Driver, Event, Migration, MigrationError, MigrationMeta,
    MigrationStatus, MigratorTrait, Revision, RevisionGraphError,
};

type Log = Rc<RefCell<Vec<String>>>;

struct Logged {
    name: &'static str,
    rev: &'static str,
    down: Option<&'static str>,
    log: Log,
}

impl MigrationMeta for Logged {
    fn name(&self) -> String {
        self.name.to_string()
    }

    fn revision(&self) -> Revision<'_> {
        Revision { message: None, revision: self.rev, down_revision: self.down, date: "2025-01-01" }
    }
}

fn declared(log: &Log) -> Vec<Logged> {
    vec![
        Logged { name: "A", rev: "a", down: None, log: log.clone() },
        Logged { name: "B", rev: "b", down: Some("a"), log: log.clone() },
        Logged { name: "C", rev: "c", down: Some("b"), log: log.clone() },
    ]
}

fn applied_of(ledger: &HashMap<String, Uuid>) -> Applied {
    let mut applied = Applied::new();
    for (name, id) in ledger {
        applied.insert(name.clone(), *id);
    }
    applied
}

fn names_of(ledger: &HashMap<String, Uuid>) -> Vec<String> {
    let mut names: Vec<String> = ledger.keys().cloned().collect();
    names.sort();
    names
}

fn ledger_with(names: &[&str]) -> HashMap<String, Uuid> {
    names.iter().map(|name| (name.to_string(), Uuid::now_v7())).collect()
}

/// Performs the work that the driver asks for against a ledger in memory.
/// A migration whose name is `fail_on` fails.
fn run(
    mut driver: Driver<Logged>,
    ledger: &mut HashMap<String, Uuid>,
    fail_on: Option<&str>,
) -> Result<(), String> {
    loop {
        let event = match driver.action() {
            Action::Ensure => {
                driver.runner(0).map(|r| r.log.borrow_mut().push("ensure".to_string()));
                Event::Done
            }
            Action::Retrieve => Event::Retrieved(applied_of(ledger)),
            Action::Up(position) => {
                let runner = driver.runner(position).expect("a runner at the position");
                if fail_on == Some(runner.name) {
                    Event::Failed
                } else {
                    runner.log.borrow_mut().push(format!("up {}", runner.name));
                    Event::Done
                }
            }
            Action::Down(position) => {
                let runner = driver.runner(position).expect("a runner at the position");
                if fail_on == Some(runner.name) {
                    Event::Failed
                } else {
                    runner.log.borrow_mut().push(format!("down {}", runner.name));
                    Event::Done
                }
            }
            Action::Insert(names) => {
                assert!(!names.is_empty());
                for name in names {
                    ledger.insert(name, Uuid::now_v7());
                }
                driver.runner(0).map(|r| r.log.borrow_mut().push("insert".to_string()));
                Event::Done
            }
            Action::Delete(handles) => {
                assert!(!handles.is_empty());
                ledger.retain(|_, id| !handles.contains(id));
                driver.runner(0).map(|r| r.log.borrow_mut().push("delete".to_string()));
                Event::Done
            }
            Action::Finish => return Ok(()),
            Action::Abort => return Err("aborted".to_string()),
            Action::Fail(error) => return Err(error.to_string()),
        };
        driver = driver.step(event);
    }
}

fn steps(log: &Log) -> Vec<String> {
    log.borrow().iter().filter(|line| *line != "ensure").cloned().collect()
}

#[test]
fn init_then_up_runs_every_migration_in_order() {
    let log = Log::default();
    let mut ledger = HashMap::new();
    run(Driver::up(declared(&log), None), &mut ledger, None).expect("the run succeeds");
    assert_eq!(steps(&log), vec!["up A", "up B", "up C", "insert"]);
    assert_eq!(names_of(&ledger), vec!["A", "B", "C"]);
}

#[test]
fn partial_up_stops_at_the_target() {
    let log = Log::default();
    let mut ledger = HashMap::new();
    run(Driver::up(declared(&log), Some("b".to_string())), &mut ledger, None)
        .expect("the run succeeds");
    assert_eq!(steps(&log), vec!["up A", "up B", "insert"]);
    assert_eq!(names_of(&ledger), vec!["A", "B"]);
}

#[test]
fn up_passes_over_what_is_applied() {
    let log = Log::default();
    let mut ledger = ledger_with(&["A"]);
    run(Driver::up(declared(&log), None), &mut ledger, None).expect("the run succeeds");
    assert_eq!(steps(&log), vec!["up B", "up C", "insert"]);
    assert_eq!(names_of(&ledger), vec!["A", "B", "C"]);
}

#[test]
fn up_with_nothing_pending_writes_nothing() {
    let log = Log::default();
    let mut ledger = ledger_with(&["A", "B", "C"]);
    let before = ledger.clone();
    run(Driver::up(declared(&log), None), &mut ledger, None).expect("the run succeeds");
    assert_eq!(steps(&log), Vec::<String>::new());
    assert_eq!(ledger, before);
}

#[test]
fn down_to_a_target_keeps_the_target() {
    let log = Log::default();
    let mut ledger = ledger_with(&["A", "B", "C"]);
    run(Driver::down(declared(&log), Some("a".to_string())), &mut ledger, None)
        .expect("the run succeeds");
    assert_eq!(steps(&log), vec!["down C", "down B", "delete"]);
    assert_eq!(names_of(&ledger), vec!["A"]);
}

#[test]
fn down_above_what_is_applied_leaves_the_names_below_the_target() {
    let log = Log::default();
    let mut ledger = ledger_with(&["A"]);
    run(Driver::down(declared(&log), Some("b".to_string())), &mut ledger, None)
        .expect("the run succeeds");
    assert_eq!(steps(&log), Vec::<String>::new());
    assert_eq!(names_of(&ledger), vec!["A"]);
}

#[test]
fn reset_reverts_everything_that_is_applied() {
    let log = Log::default();
    let mut ledger = ledger_with(&["A", "B"]);
    run(Driver::reset(declared(&log)), &mut ledger, None).expect("the run succeeds");
    assert_eq!(steps(&log), vec!["down B", "down A", "delete"]);
    assert!(ledger.is_empty());
}

#[test]
fn an_unknown_target_of_a_downward_run_is_not_found() {
    let log = Log::default();
    let mut ledger = ledger_with(&["A", "B", "C"]);
    let before = ledger.clone();
    let result = run(Driver::down(declared(&log), Some("zzz".to_string())), &mut ledger, None);
    assert_eq!(result, Err("zzz not found".to_string()));
    assert_eq!(steps(&log), Vec::<String>::new());
    assert_eq!(ledger, before);
}

#[test]
fn an_unknown_target_of_a_downward_run_fails_once_the_ledger_is_read() {
    let log = Log::default();
    let ledger = ledger_with(&["A", "B", "C"]);
    let driver = Driver::down(declared(&log), Some("zzz".to_string()))
        .step(Event::Done)
        .step(Event::Retrieved(applied_of(&ledger)));
    match driver.action() {
        Action::Fail(MigrationError::Graph(RevisionGraphError::NotFound(what))) => {
            assert_eq!(what, "zzz")
        }
        other => panic!("unexpected action {:?}", other),
    }
    let after = driver.step(Event::Done);
    assert!(matches!(after.action(), Action::Fail(_)));
}

#[test]
fn down_leaves_what_lies_at_or_below_the_target_under_its_handle() {
    let log = Log::default();
    let mut ledger = ledger_with(&["A", "C", "other"]);
    let before = ledger.clone();
    run(Driver::down(declared(&log), Some("a".to_string())), &mut ledger, None)
        .expect("the run succeeds");
    assert_eq!(steps(&log), vec!["down C", "delete"]);
    assert_eq!(names_of(&ledger), vec!["A", "other"]);
    assert_eq!(ledger.get("A"), before.get("A"));
    assert_eq!(ledger.get("other"), before.get("other"));
    for name in ledger.keys() {
        assert!(before.contains_key(name));
    }
}

#[test]
fn down_to_the_head_runs_nothing() {
    let log = Log::default();
    let mut ledger = ledger_with(&["A", "B", "C"]);
    let before = ledger.clone();
    run(Driver::down(declared(&log), Some("c".to_string())), &mut ledger, None)
        .expect("the run succeeds");
    assert_eq!(steps(&log), Vec::<String>::new());
    assert_eq!(ledger, before);
}

#[test]
fn refresh_goes_down_and_up_again() {
    let log = Log::default();
    let mut ledger = ledger_with(&["A", "B", "C"]);
    let before = ledger.clone();
    run(Driver::refresh(declared(&log)), &mut ledger, None).expect("the run succeeds");
    assert_eq!(
        steps(&log),
        vec!["down C", "down B", "down A", "delete", "up A", "up B", "up C", "insert"]
    );
    assert_eq!(names_of(&ledger), vec!["A", "B", "C"]);
    for (name, id) in &before {
        assert_ne!(ledger.get(name), Some(id));
    }
}

#[test]
fn refresh_leaves_what_a_fresh_up_leaves() {
    for start in [vec![], vec!["A"], vec!["A", "B"], vec!["A", "B", "C"]] {
        let log = Log::default();
        let mut refreshed = ledger_with(&start);
        run(Driver::refresh(declared(&log)), &mut refreshed, None).expect("the run succeeds");
        let mut fresh = HashMap::new();
        run(Driver::up(declared(&Log::default()), None), &mut fresh, None)
            .expect("the run succeeds");
        assert_eq!(names_of(&refreshed), names_of(&fresh));
    }
}

#[test]
fn refresh_of_an_empty_ledger_only_goes_up() {
    let log = Log::default();
    let mut ledger = HashMap::new();
    run(Driver::refresh(declared(&log)), &mut ledger, None).expect("the run succeeds");
    assert_eq!(steps(&log), vec!["up A", "up B", "up C", "insert"]);
    assert_eq!(names_of(&ledger), vec!["A", "B", "C"]);
}

#[test]
fn the_ledger_is_ensured_before_it_is_read() {
    let log = Log::default();
    let driver = Driver::up(declared(&log), None);
    assert!(matches!(driver.action(), Action::Ensure));
    assert!(driver.revision_graph().is_none());
    let driver = driver.step(Event::Done);
    assert!(matches!(driver.action(), Action::Retrieve));
    let driver = driver.step(Event::Retrieved(Applied::new()));
    assert!(matches!(driver.action(), Action::Up(0)));
    let graph = driver.revision_graph().expect("the graph is built once the ledger is read");
    assert_eq!(graph.head(), "c");
}

#[test]
fn a_failing_migration_stops_the_leg_before_the_ledger_is_written() {
    let log = Log::default();
    let mut ledger = ledger_with(&["A"]);
    let before = ledger.clone();
    let result = run(Driver::up(declared(&log), None), &mut ledger, Some("C"));
    assert_eq!(result, Err("aborted".to_string()));
    assert_eq!(steps(&log), vec!["up B"]);
    assert_eq!(ledger, before);

    let log = Log::default();
    let mut ledger = ledger_with(&["A", "B", "C"]);
    let before = ledger.clone();
    let result = run(Driver::refresh(declared(&log)), &mut ledger, Some("B"));
    assert_eq!(result, Err("aborted".to_string()));
    assert_eq!(steps(&log), vec!["down C"]);
    assert_eq!(ledger, before);
}

#[test]
fn a_failure_of_the_ledger_stops_the_run() {
    let log = Log::default();
    let driver = Driver::up(declared(&log), None).step(Event::Failed);
    assert!(matches!(driver.action(), Action::Abort));
    let driver = driver.step(Event::Done);
    assert!(matches!(driver.action(), Action::Abort));
    let driver = Driver::up(declared(&log), None).step(Event::Done).step(Event::Failed);
    assert!(matches!(driver.action(), Action::Abort));
}

#[test]
fn an_unknown_target_of_an_upward_run_is_not_found() {
    let log = Log::default();
    let mut ledger = HashMap::new();
    let result = run(Driver::up(declared(&log), Some("nowhere".to_string())), &mut ledger, None);
    assert_eq!(result, Err("nowhere not found".to_string()));
    assert_eq!(steps(&log), Vec::<String>::new());
    assert!(ledger.is_empty());
}

#[test]
fn a_cycle_is_reported_once_the_ledger_is_read() {
    let log = Log::default();
    let cycle = vec![
        Logged { name: "A", rev: "a", down: Some("c"), log: log.clone() },
        Logged { name: "B", rev: "b", down: Some("a"), log: log.clone() },
        Logged { name: "C", rev: "c", down: Some("b"), log: log.clone() },
    ];
    let driver = Driver::up(cycle, None).step(Event::Done).step(Event::Retrieved(Applied::new()));
    match driver.action() {
        Action::Fail(MigrationError::Graph(RevisionGraphError::NotFound(what))) => {
            assert_eq!(what, "head")
        }
        other => panic!("unexpected action {:?}", other),
    }
}

#[test]
fn an_applied_entry_without_handle_stops_a_downward_run() {
    let log = Log::default();
    let entries: Vec<Migration<Logged>> = declared(&log)
        .into_iter()
        .map(|runner| {
            let status = MigrationStatus::Applied;
            let id = if runner.name == "B" { None } else { Some(Uuid::now_v7()) };
            let mut entry = Migration::new(runner, None, status);
            entry.id = id;
            entry
        })
        .collect();
    let graph = vectorctl::RevisionGraph::try_from(entries).expect("the chain is a graph");
    assert_eq!(graph.plan_down(None).ok(), Some(vec![2, 1, 0]));
    assert_eq!(graph.plan_down(Some("a")).ok(), Some(vec![2, 1]));
    match graph.plan_down(Some("zzz")) {
        Err(MigrationError::Graph(RevisionGraphError::NotFound(what))) => assert_eq!(what, "zzz"),
        other => panic!("unexpected plan {:?}", other.is_ok()),
    }
    assert_eq!(graph.plan_up(None, None).ok(), Some(vec![]));
    assert_eq!(graph.plan_all(), vec![0, 1, 2]);
}

#[test]
fn a_missing_handle_is_reported_by_the_quoted_name() {
    assert_eq!(
        vectorctl::driver::missing_handle("B").to_string(),
        "\"B\" not found"
    );
    assert_eq!(
        vectorctl::driver::missing_handle("a \"b\"\n").to_string(),
        "\"a \\\"b\\\"\\n\" not found"
    );
}

#[test]
fn work_that_was_not_asked_for_stops_the_run() {
    let log = Log::default();
    let driver = Driver::up(declared(&log), None).step(Event::Retrieved(Applied::new()));
    match driver.action() {
        Action::Fail(MigrationError::Other(what)) => assert_eq!(what, "unexpected event"),
        other => panic!("unexpected action {:?}", other),
    }
    let driver = Driver::up(declared(&log), None).step(Event::Done).step(Event::Done);
    match driver.action() {
        Action::Fail(error) => assert_eq!(error.to_string(), "Other unexpected event"),
        other => panic!("unexpected action {:?}", other),
    }
}

#[test]
fn a_run_from_a_revision_starts_there() {
    let log = Log::default();
    let mut ledger = HashMap::new();
    let driver =
        Driver::exec(declared(&log), Some("b".to_string()), Some("c".to_string()), Direction::Up);
    run(driver, &mut ledger, None).expect("the run succeeds");
    assert_eq!(steps(&log), vec!["up B", "up C", "insert"]);
    assert_eq!(names_of(&ledger), vec!["B", "C"]);
}

#[test]
fn insertion_order_does_not_change_the_order_of_the_run() {
    let log = Log::default();
    let mut shuffled = declared(&log);
    shuffled.swap(0, 2);
    let mut ledger = HashMap::new();
    run(Driver::up(shuffled, None), &mut ledger, None).expect("the run succeeds");
    assert_eq!(steps(&log), vec!["up A", "up B", "up C", "insert"]);
}

struct Migrator;

impl MigratorTrait for Migrator {
    type Migration = Logged;

    fn migrations() -> Vec<Logged> {
        declared(&Log::default())
    }
}

#[test]
fn a_migrator_comes_with_its_runs() {
    let mut ledger = HashMap::new();
    run(Migrator::up(Some("b".to_string())), &mut ledger, None).expect("the run succeeds");
    assert_eq!(names_of(&ledger), vec!["A", "B"]);
    assert_eq!(
        Migrator::status(&applied_of(&ledger)).expect("the chain is a graph"),
        vec![
            "Migration `A`, status: `Applied`",
            "Migration `B`, status: `Applied`",
            "Migration `C`, status: `Pending`",
        ]
    );
    run(Migrator::refresh(), &mut ledger, None).expect("the run succeeds");
    assert_eq!(names_of(&ledger), vec!["A", "B", "C"]);
    run(Migrator::down(Some("b".to_string())), &mut ledger, None).expect("the run succeeds");
    assert_eq!(names_of(&ledger), vec!["A", "B"]);
    run(Migrator::exec(None, None, Direction::Up), &mut ledger, None).expect("the run succeeds");
    assert_eq!(names_of(&ledger), vec!["A", "B", "C"]);
    run(Migrator::reset(), &mut ledger, None).expect("the run succeeds");
    assert!(ledger.is_empty());
    let graph = Migrator::build_graph(&Applied::new()).expect("the chain is a graph");
    assert_eq!(graph.queue(), "a");
    assert_eq!(Migrator::latest_revision().expect("there are migrations").name, "C");
}

#[test]
fn a_run_from_an_unknown_revision_runs_nothing() {
    let log = Log::default();
    let mut ledger = HashMap::new();
    let driver =
        Driver::exec(declared(&log), Some("nowhere".to_string()), None, Direction::Up);
    run(driver, &mut ledger, None).expect("the run succeeds");
    assert_eq!(steps(&log), Vec::<String>::new());
    assert!(ledger.is_empty());
}

#[test]
fn a_second_up_does_nothing() {
    let log = Log::default();
    let mut ledger = HashMap::new();
    run(Driver::up(declared(&log), None), &mut ledger, None).expect("the run succeeds");
    let before = ledger.clone();
    let again = Log::default();
    run(Driver::up(declared(&again), None), &mut ledger, None).expect("the run succeeds");
    assert_eq!(steps(&again), Vec::<String>::new());
    assert_eq!(ledger, before);
}
