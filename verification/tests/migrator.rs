use uuid::Uuid;
use vectorctl::context::ContextError;
use vectorctl::migrator::{
    build_graph, declare, graph_of, latest_date, latest_revision, status_of,
};
use vectorctl::{
    Applied, Metadata, Migration, MigrationError, MigrationMeta, MigrationStatus, Revision,
    RevisionGraphError,
};

#[derive(Debug, PartialEq)]
struct Dated {
    name: &'static str,
    rev: &'static str,
    down: Option<&'static str>,
    date: &'static str,
}

impl MigrationMeta for Dated {
    fn name(&self) -> String {
        self.name.to_string()
    }

    fn revision(&self) -> Revision<'_> {
        Revision {
            message: Some("a message"),
            revision: self.rev,
            down_revision: self.down,
            date: self.date,
        }
    }
}

fn chain() -> Vec<Dated> {
    vec![
        Dated { name: "A", rev: "a", down: None, date: "2025-01-01" },
        Dated { name: "B", rev: "b", down: Some("a"), date: "2025-01-02" },
        Dated { name: "C", rev: "c", down: Some("b"), date: "2025-01-03" },
    ]
}

#[test]
fn status_is_written_as_a_word() {
    assert_eq!(MigrationStatus::Pending.to_string(), "Pending");
    assert_eq!(MigrationStatus::Applied.to_string(), "Applied");
}

#[test]
fn errors_are_written_as_sentences() {
    assert_eq!(
        MigrationError::Graph(RevisionGraphError::NotFound("head".to_string())).to_string(),
        "head not found"
    );
    assert_eq!(
        MigrationError::Missing("no migrations".to_string()).to_string(),
        "migration no migrations missing"
    );
    assert_eq!(
        MigrationError::Context(ContextError::Resource("gone".to_string())).to_string(),
        "Resource: gone"
    );
    assert_eq!(MigrationError::Other("else".to_string()).to_string(), "Other else");
}

#[test]
fn a_missing_resource_is_named_by_its_type() {
    let error = ContextError::missing("alloc::string::String");
    assert_eq!(
        error.to_string(),
        "Resource: Resource `alloc::string::String` does not exist."
    );
    match ContextError::found(None::<u8>, "u8") {
        Err(ContextError::Resource(detail)) => {
            assert_eq!(detail, "Resource `u8` does not exist.")
        }
        Ok(_) => panic!("nothing was found"),
    }
    assert_eq!(ContextError::found(Some(5u8), "u8").ok(), Some(5u8));
}

#[test]
fn metadata_is_copied_from_the_migration() {
    let migration = Dated { name: "A", rev: "a", down: Some("z"), date: "2025-01-01" };
    let meta = Migration::new(migration, None, MigrationStatus::Pending).meta;
    assert_eq!(meta.name, "A");
    assert_eq!(meta.revision, "a");
    assert_eq!(meta.down_revision.as_deref(), Some("z"));
    assert_eq!(meta.date, "2025-01-01");
    assert_eq!(meta.message.as_deref(), Some("a message"));
    let back = meta.as_revision();
    assert_eq!(back.revision, "a");
    assert_eq!(back.down_revision, Some("z"));
    assert_eq!(back.date, "2025-01-01");
    assert_eq!(back.message, Some("a message"));
}

#[test]
fn entries_take_handle_and_status_from_the_ledger() {
    let a = Uuid::now_v7();
    let mut applied = Applied::new();
    applied.insert("A".to_string(), a);
    applied.insert("unknown".to_string(), Uuid::now_v7());
    let graph = build_graph(chain(), &applied).expect("the chain is a graph");
    let first = graph.node(0).unwrap();
    let second = graph.node(1).unwrap();
    assert_eq!(first.migration.id, Some(a));
    assert_eq!(first.migration.status, MigrationStatus::Applied);
    assert_eq!(first.migration.runner.name, "A");
    assert_eq!(second.migration.id, None);
    assert_eq!(second.migration.status, MigrationStatus::Pending);
    assert_eq!(graph.node(2).unwrap().migration.status, MigrationStatus::Pending);
}

#[test]
fn a_broken_declaration_is_a_graph_error() {
    let applied = Applied::new();
    let broken = vec![
        Dated { name: "A", rev: "a", down: Some("c"), date: "2025-01-01" },
        Dated { name: "B", rev: "b", down: Some("a"), date: "2025-01-02" },
        Dated { name: "C", rev: "c", down: Some("b"), date: "2025-01-03" },
    ];
    match graph_of(declare(broken), &applied) {
        Err(MigrationError::Graph(RevisionGraphError::NotFound(what))) => {
            assert_eq!(what, "head")
        }
        other => panic!("unexpected result {:?}", other.map(|_| ())),
    }
}

#[test]
fn status_lists_every_migration_in_forward_order() {
    let mut applied = Applied::new();
    applied.insert("A".to_string(), Uuid::now_v7());
    applied.insert("B".to_string(), Uuid::now_v7());
    let mut declared = chain();
    declared.reverse();
    let graph = build_graph(declared, &applied).expect("the chain is a graph");
    assert_eq!(
        graph.status(),
        vec![
            "Migration `A`, status: `Applied`",
            "Migration `B`, status: `Applied`",
            "Migration `C`, status: `Pending`",
        ]
    );
}

#[test]
fn the_latest_date_is_the_last_of_the_greatest() {
    let dates = |list: &[&str]| list.iter().map(|d| d.to_string()).collect::<Vec<_>>();
    assert_eq!(latest_date(&dates(&[])), None);
    assert_eq!(latest_date(&dates(&["2025-01-01"])), Some(0));
    assert_eq!(latest_date(&dates(&["2025-01-03", "2025-01-01", "2025-01-02"])), Some(0));
    assert_eq!(latest_date(&dates(&["2025-01-01", "2025-01-03", "2025-01-03"])), Some(2));
    assert_eq!(latest_date(&dates(&["2025-01-01", "2025-01-01T00:00:00"])), Some(1));
    assert_eq!(latest_date(&dates(&["b", "a", "ab", "B"])), Some(0));
    assert_eq!(latest_date(&dates(&["", ""])), Some(1));
}

#[test]
fn texts_compare_by_code_point_and_a_prefix_comes_first() {
    for (a, b) in [
        ("", ""),
        ("", "a"),
        ("a", ""),
        ("a", "a"),
        ("a", "b"),
        ("b", "a"),
        ("ab", "a"),
        ("a", "ab"),
        ("B", "a"),
        ("2025-01-01", "2025-01-01T00:00:00"),
        ("2025-01-10", "2025-01-09"),
        ("\u{e9}", "z"),
        ("z", "\u{e9}"),
        ("\u{10000}", "\u{ffff}"),
        ("\u{ffff}", "\u{10000}"),
    ] {
        assert_eq!(vectorctl::text::text_le(a, b), a <= b, "{:?} and {:?}", a, b);
    }
}

#[test]
fn the_latest_revision_is_the_one_dated_last() {
    let latest = latest_revision(vec![
        Dated { name: "A", rev: "a", down: None, date: "2025-05-22T14:59:10" },
        Dated { name: "C", rev: "c", down: Some("b"), date: "2025-07-01T08:00:00" },
        Dated { name: "B", rev: "b", down: Some("a"), date: "2025-06-01T08:00:00" },
    ])
    .expect("there are migrations");
    assert_eq!(latest.name, "C");
    let tied = latest_revision(vec![
        Dated { name: "A", rev: "a", down: None, date: "2025-05-22" },
        Dated { name: "B", rev: "b", down: Some("a"), date: "2025-05-22" },
    ])
    .expect("there are migrations");
    assert_eq!(tied.name, "B");
}

#[test]
fn without_migrations_there_is_no_latest_revision() {
    match latest_revision(Vec::<Dated>::new()) {
        Err(MigrationError::Missing(what)) => assert_eq!(what, "no migrations"),
        other => panic!("unexpected result {:?}", other),
    }
}

#[test]
fn an_entry_is_made_of_its_parts() {
    let id = Uuid::now_v7();
    let entry = Migration::from_parts(
        7u8,
        Metadata {
            name: "N".to_string(),
            revision: "r".to_string(),
            down_revision: None,
            date: "2025-01-01".to_string(),
            message: None,
        },
        Some(id),
        MigrationStatus::Applied,
    );
    assert_eq!(entry.runner, 7);
    assert_eq!(entry.meta.name, "N");
    assert_eq!(entry.id, Some(id));
    assert_eq!(entry.status, MigrationStatus::Applied);
}

#[test]
fn the_status_of_declarations_follows_their_chain() {
    let mut applied = Applied::new();
    applied.insert("B".to_string(), Uuid::now_v7());
    applied.insert("unknown".to_string(), Uuid::now_v7());
    let mut declared = chain();
    declared.swap(0, 1);
    assert_eq!(
        status_of(declare(declared), &applied).expect("the chain has a report"),
        vec![
            "Migration `A`, status: `Pending`",
            "Migration `B`, status: `Applied`",
            "Migration `C`, status: `Pending`",
        ]
    );
    assert_eq!(
        status_of(declare(vec![Dated { name: "A", rev: "a", down: None, date: "" }]), &Applied::new())
            .expect("one migration is a chain"),
        vec!["Migration `A`, status: `Pending`"]
    );
}

#[test]
fn declarations_that_form_no_chain_have_no_status() {
    let applied = Applied::new();
    match status_of(declare(Vec::<Dated>::new()), &applied) {
        Err(MigrationError::Graph(RevisionGraphError::NotFound(what))) => assert_eq!(what, "head"),
        other => panic!("unexpected result {:?}", other),
    }
    let dangling = vec![
        Dated { name: "A", rev: "a", down: None, date: "2025-01-01" },
        Dated { name: "B", rev: "b", down: Some("x"), date: "2025-01-02" },
    ];
    match status_of(declare(dangling), &applied) {
        Err(MigrationError::Graph(RevisionGraphError::NotFound(what))) => assert_eq!(what, "x"),
        other => panic!("unexpected result {:?}", other),
    }
}
