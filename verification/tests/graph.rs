use uuid::Uuid;
use vectorctl::{
    Migration, MigrationMeta, MigrationStatus, Revision, RevisionGraph, RevisionGraphError,
};

#[derive(Debug)]
struct TestMigration {
    rev: &'static str,
    down_rev: Option<&'static str>,
}

impl MigrationMeta for TestMigration {
    fn name(&self) -> String {
        self.rev.to_string()
    }

    fn revision(&self) -> Revision<'_> {
        Revision {
            message: None,
            revision: self.rev,
            down_revision: self.down_rev,
            date: "2023-01-01",
        }
    }
}

fn make_migration(
    rev: &'static str,
    down_rev: Option<&'static str>,
    status: Option<MigrationStatus>,
) -> Migration<TestMigration> {
    Migration::new(
        TestMigration { rev, down_rev },
        Some(Uuid::now_v7()),
        status.unwrap_or(MigrationStatus::Pending),
    )
}

fn revisions(path: &[&vectorctl::Node<TestMigration>]) -> Vec<String> {
    path.iter().map(|node| node.revision.clone()).collect()
}

fn failure(migrations: Vec<Migration<TestMigration>>) -> String {
    match RevisionGraph::try_from(migrations) {
        Ok(_) => panic!("the graph should not be created"),
        Err(RevisionGraphError::NotFound(what)) => what,
    }
}

#[test]
fn test_graph_construction_and_paths() {
    let migrations = vec![
        make_migration("a", None, None),
        make_migration("b", Some("a"), None),
        make_migration("c", Some("b"), None),
    ];

    let graph = RevisionGraph::try_from(migrations).expect("graph should be created");

    assert_eq!(graph.queue(), "a");
    assert_eq!(graph.head(), "c");

    let forward = graph.forward_path(Some("a"), "c").expect("target revision must exist");
    assert_eq!(
        forward
            .iter()
            .map(|r| r.revision.as_str())
            .collect::<Vec<_>>(),
        vec!["a", "b", "c"]
    );

    let backward = graph.backward_path(Some("c"), Some("a"));
    assert_eq!(
        backward
            .iter()
            .map(|r| r.revision.as_str())
            .collect::<Vec<_>>(),
        vec!["c", "b"]
    );

    let (id, migration) = graph.get("b").expect("should find 'b'");
    assert!(id.is_some());
    assert_eq!(migration.revision().revision, "b");
}

#[test]
fn test_graph_contruction_with_applied_revision() {
    let migrations = vec![make_migration("a", None, Some(MigrationStatus::Applied))];

    let graph = RevisionGraph::try_from(migrations).expect("graph should be created");

    assert_eq!(graph.head(), "a");
    assert_eq!(graph.queue(), "a");

    let forward = graph.forward_path(None, "a").expect("target revision must exist");
    assert_eq!(
        forward
            .iter()
            .map(|r| r.revision.as_str())
            .collect::<Vec<_>>(),
        Vec::<&str>::new()
    );

    let backward = graph.backward_path(Some("a"), None);
    assert_eq!(
        backward
            .iter()
            .map(|r| r.revision.as_str())
            .collect::<Vec<_>>(),
        vec!["a"]
    );
}

#[test]
fn test_no_head_error() {
    let migrations = vec![
        make_migration("a", Some("c"), None),
        make_migration("b", Some("a"), None),
        make_migration("c", Some("b"), None),
    ];

    let graph = RevisionGraph::try_from(migrations);
    assert!(matches!(graph, Err(RevisionGraphError::NotFound(_))));
}

#[test]
fn cycle_reports_the_head_as_missing() {
    let what = failure(vec![
        make_migration("a", Some("c"), None),
        make_migration("b", Some("a"), None),
        make_migration("c", Some("b"), None),
    ]);
    assert_eq!(what, "head");
    assert_eq!(
        RevisionGraphError::NotFound(what).to_string(),
        "head not found"
    );
}

#[test]
fn roundtrip_holds_for_every_insertion_order() {
    let orders: Vec<Vec<usize>> = vec![
        vec![0, 1, 2, 3],
        vec![3, 2, 1, 0],
        vec![2, 0, 3, 1],
        vec![1, 3, 0, 2],
    ];
    let declared: Vec<(&'static str, Option<&'static str>)> = vec![
        ("r1", None),
        ("r2", Some("r1")),
        ("r3", Some("r2")),
        ("r4", Some("r3")),
    ];
    for order in orders {
        let migrations = order
            .iter()
            .map(|&i| make_migration(declared[i].0, declared[i].1, None))
            .collect();
        let graph = RevisionGraph::try_from(migrations).expect("a chain in any order is a graph");
        assert_eq!(graph.len(), 4);
        assert_eq!(graph.queue(), "r1");
        assert_eq!(graph.head(), "r4");
        assert_eq!(
            revisions(&graph.forward_path(Some("r1"), "r4").expect("r4 is declared")),
            vec!["r1", "r2", "r3", "r4"]
        );
        assert_eq!(
            revisions(&graph.backward_path(Some("r4"), None)),
            vec!["r4", "r3", "r2", "r1"]
        );
    }
}

#[test]
fn nodes_keep_insertion_order_and_link_by_position() {
    let graph = RevisionGraph::try_from(vec![
        make_migration("c", Some("b"), None),
        make_migration("a", None, None),
        make_migration("b", Some("a"), None),
    ])
    .expect("graph should be created");
    let c = graph.node(0).expect("node 0");
    let a = graph.node(1).expect("node 1");
    let b = graph.node(2).expect("node 2");
    assert!(graph.node(3).is_none());
    assert_eq!(c.revision, "c");
    assert_eq!(a.revision, "a");
    assert_eq!(b.revision, "b");
    assert_eq!(a.parent, None);
    assert_eq!(b.parent, Some(1));
    assert_eq!(c.parent, Some(2));
    assert_eq!(a.children.as_slice(), &[2]);
    assert_eq!(b.children.as_slice(), &[0]);
    assert!(c.children.is_empty());
    assert_eq!(c.migration.meta.name, "c");
    assert_eq!(c.migration.meta.down_revision.as_deref(), Some("b"));
    assert_eq!(c.migration.meta.date, "2023-01-01");
}

#[test]
fn exactly_one_root_is_needed() {
    assert_eq!(
        failure(vec![
            make_migration("a", None, None),
            make_migration("b", None, None),
        ]),
        "head"
    );
}

#[test]
fn exactly_one_head_is_needed() {
    assert_eq!(
        failure(vec![
            make_migration("a", None, None),
            make_migration("b", Some("a"), None),
            make_migration("c", Some("a"), None),
        ]),
        "head"
    );
}

#[test]
fn a_cycle_beside_the_chain_is_refused() {
    assert_eq!(
        failure(vec![
            make_migration("a", None, None),
            make_migration("b", Some("c"), None),
            make_migration("c", Some("b"), None),
        ]),
        "head"
    );
}

#[test]
fn no_migration_is_no_graph() {
    assert_eq!(failure(vec![]), "head");
}

#[test]
fn a_dangling_parent_is_reported_by_its_identifier() {
    assert_eq!(
        failure(vec![
            make_migration("a", None, None),
            make_migration("b", Some("x"), None),
            make_migration("c", Some("y"), None),
        ]),
        "x"
    );
}

#[test]
fn a_repeated_revision_is_refused() {
    assert_eq!(
        failure(vec![
            make_migration("a", None, None),
            make_migration("b", Some("a"), None),
            make_migration("a", Some("b"), None),
        ]),
        "head"
    );
    assert_eq!(
        failure(vec![
            make_migration("a", Some("zz"), None),
            make_migration("a", None, None),
        ]),
        "head"
    );
}

#[test]
fn forward_path_past_the_target_runs_to_the_head() {
    let graph = RevisionGraph::try_from(vec![
        make_migration("a", None, None),
        make_migration("b", Some("a"), None),
        make_migration("c", Some("b"), None),
    ])
    .expect("graph should be created");
    let forward = |from: Option<&str>, to: &str| {
        revisions(&graph.forward_path(from, to).expect("the target is declared"))
    };
    assert_eq!(forward(Some("b"), "a"), vec!["b", "c", "a"]);
    assert_eq!(forward(Some("b"), "b"), vec!["b"]);
    assert_eq!(forward(Some("a"), "b"), vec!["a", "b"]);
    assert_eq!(graph.forward_positions(Some("a"), "b").ok(), Some(vec![0, 1]));
}

#[test]
fn forward_path_without_a_start_is_empty() {
    let graph = RevisionGraph::try_from(vec![
        make_migration("a", None, None),
        make_migration("b", Some("a"), None),
        make_migration("c", Some("b"), None),
    ])
    .expect("graph should be created");
    let forward = |from: Option<&str>, to: &str| {
        revisions(&graph.forward_path(from, to).expect("the target is declared"))
    };
    assert_eq!(forward(None, "c"), Vec::<String>::new());
    assert_eq!(forward(None, "a"), Vec::<String>::new());
    assert_eq!(forward(Some("nowhere"), "b"), Vec::<String>::new());
    assert_eq!(graph.forward_positions(None, "b").ok(), Some(vec![]));
}

#[test]
fn forward_path_to_an_unknown_target_is_not_found() {
    let graph = RevisionGraph::try_from(vec![
        make_migration("a", None, None),
        make_migration("b", Some("a"), None),
        make_migration("c", Some("b"), None),
    ])
    .expect("graph should be created");
    match graph.forward_path(Some("a"), "zzz") {
        Err(RevisionGraphError::NotFound(what)) => assert_eq!(what, "zzz"),
        Ok(_) => panic!("zzz is not declared"),
    }
    match graph.forward_path(None, "zzz") {
        Err(error) => assert_eq!(error.to_string(), "zzz not found"),
        Ok(_) => panic!("zzz is not declared"),
    }
    match graph.forward_positions(Some("nowhere"), "") {
        Err(RevisionGraphError::NotFound(what)) => assert_eq!(what, ""),
        Ok(_) => panic!("the empty text is not declared"),
    }
}

#[test]
fn backward_path_stops_above_the_stop() {
    let graph = RevisionGraph::try_from(vec![
        make_migration("a", None, None),
        make_migration("b", Some("a"), None),
        make_migration("c", Some("b"), None),
    ])
    .expect("graph should be created");
    assert_eq!(revisions(&graph.backward_path(Some("c"), Some("c"))), Vec::<String>::new());
    assert_eq!(revisions(&graph.backward_path(Some("c"), Some("b"))), vec!["c"]);
    assert_eq!(revisions(&graph.backward_path(Some("b"), Some("c"))), vec!["b", "a"]);
    assert_eq!(revisions(&graph.backward_path(Some("c"), Some("nowhere"))), vec!["c", "b", "a"]);
    assert_eq!(revisions(&graph.backward_path(None, None)), Vec::<String>::new());
    assert_eq!(revisions(&graph.backward_path(Some("nowhere"), None)), Vec::<String>::new());
    assert_eq!(graph.backward_positions(Some("c"), Some("a")), vec![2, 1]);
}

#[test]
fn get_and_contains_find_declared_revisions_only() {
    let id = Uuid::now_v7();
    let graph = RevisionGraph::try_from(vec![
        Migration::new(
            TestMigration { rev: "a", down_rev: None },
            Some(id),
            MigrationStatus::Applied,
        ),
        Migration::new(
            TestMigration { rev: "b", down_rev: Some("a") },
            None,
            MigrationStatus::Pending,
        ),
    ])
    .expect("graph should be created");
    assert!(graph.contains("a"));
    assert!(graph.contains("b"));
    assert!(!graph.contains("c"));
    assert!(!graph.contains(""));
    let (found, runner) = graph.get("a").expect("a is declared");
    assert_eq!(found, Some(id));
    assert_eq!(runner.rev, "a");
    let (found, runner) = graph.get("b").expect("b is declared");
    assert_eq!(found, None);
    assert_eq!(runner.rev, "b");
    assert!(graph.get("c").is_none());
}
