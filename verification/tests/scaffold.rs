use regex::Regex;
use std::collections::HashSet;
use vectorctl::cli::{
    cargo_args, command_args, has_hyphen, operation, underscore_spaces, Operation,
};
use vectorctl::scaffold::{
    filename, filename_at, letters, migration_modules, module_name, new_revision,
    revision_file, revision_id, revision_id_of, revision_template,
};
use vectorctl::template::{
    filename_ok, iso_date_ok, plain_word_ok, revision_id_ok, BuilderError,
};
use vectorctl::{
    get_file_stem, parse_migration_name, Direction, MigrateError, MigrateSubcommands,
    MigratorTemplate, RevisionTemplate,
};

fn id_re() -> Regex {
    Regex::new(r"^[A-Za-z]{1,11}$").unwrap()
}

#[test]
fn id_format() {
    let id = revision_id().unwrap();
    assert!(id_re().is_match(&id));
}

#[test]
fn uniqueness() {
    let mut seen = HashSet::with_capacity(4096);
    for _ in 0..4096 {
        seen.insert(revision_id().unwrap());
    }
    assert_eq!(seen.len(), 4096);
}

#[test]
fn an_identifier_is_the_letters_of_the_base64_text() {
    assert_eq!(revision_id_of(&vec![0u8; 8]), "AAAAAAAAAAA");
    assert_eq!(revision_id_of(&vec![255u8; 8]), "");
    assert_eq!(revision_id_of(&vec![0xfb, 0xff, 0xbf]), "");
    assert_eq!(revision_id_of(&b"hello wo".to_vec()), "aGVsbGgd");
    assert_eq!(revision_id_of(&vec![]), "");
    assert_eq!(revision_id_of(&vec![b'M']), "TQ");
    assert_eq!(revision_id_of(&vec![b'M', b'a']), "TWE");
    assert_eq!(revision_id_of(&vec![b'M', b'a', b'n']), "TWFu");
    assert_eq!(revision_id_of(&vec![0xd3, 0x5d, 0xb7, 0xe3, 0x9e, 0xbb, 0xf3, 0xdf]), "");
    assert_eq!(
        revision_id_of(&vec![0x69, 0xb7, 0x1d, 0x79, 0xf8, 0x21, 0x8a, 0x39]),
        "abcdefghijk"
    );
}

#[test]
fn letters_keeps_ascii_letters_only() {
    assert_eq!(letters("a1-B_2c"), "aBc");
    assert_eq!(letters("0123-_"), "");
    assert_eq!(letters(""), "");
    assert_eq!(letters("\u{e9}x\u{3b1}Z"), "xZ");
}

#[test]
fn the_stem_is_the_file_name_without_extension() {
    assert_eq!(get_file_stem("src/version_20250522_145910_init_migration.rs"),
        Some("version_20250522_145910_init_migration"));
    assert_eq!(get_file_stem("lib.rs"), Some("lib"));
    assert_eq!(get_file_stem("a/b/archive.tar.gz"), Some("archive.tar"));
    assert_eq!(get_file_stem("a/.hidden"), Some(".hidden"));
    assert_eq!(get_file_stem("a/b/"), Some("b"));
    assert_eq!(get_file_stem(""), None);
    assert_eq!(get_file_stem("/"), None);
    assert_eq!(get_file_stem("a/.."), None);
}

#[test]
fn the_stem_of_a_bare_file_name_ends_before_its_last_dot() {
    assert_eq!(get_file_stem("lib"), Some("lib"));
    assert_eq!(get_file_stem("archive.tar.gz"), Some("archive.tar"));
    assert_eq!(get_file_stem(".hidden"), Some(".hidden"));
    assert_eq!(get_file_stem(".hidden.rs"), Some(".hidden"));
    assert_eq!(get_file_stem("name."), Some("name"));
    assert_eq!(get_file_stem("name.."), Some("name."));
    assert_eq!(get_file_stem("..."), Some(".."));
    assert_eq!(get_file_stem("a b"), Some("a b"));
    assert_eq!(get_file_stem("."), None);
    assert_eq!(get_file_stem(".."), None);
}

#[test]
fn a_file_name_joins_prefix_time_and_stem() {
    assert_eq!(
        filename_at("20250522_145910", "init_migration"),
        "version_20250522_145910_init_migration"
    );
    assert_eq!(filename_at("", ""), "version__");
    let made = filename("add_table");
    let shape = Regex::new(r"^version_\d{8}_\d{6}_add_table$").unwrap();
    assert!(shape.is_match(&made), "{}", made);
    assert!(filename_ok(&made));
}

#[test]
fn the_date_of_a_new_revision_is_an_iso_date() {
    let date = new_revision("x", None, None).expect("a new revision").date;
    let shape = Regex::new(r"^\d{4}-\d{2}-\d{2}T\d{2}:\d{2}:\d{2}$").unwrap();
    assert!(shape.is_match(&date), "{}", date);
    assert!(iso_date_ok(&date));
}

#[test]
fn file_names_start_with_a_letter() {
    assert!(filename_ok("version_20250101_011111_init"));
    assert!(filename_ok("a"));
    assert!(filename_ok("A_9"));
    assert!(!filename_ok(""));
    assert!(!filename_ok("_a"));
    assert!(!filename_ok("9a"));
    assert!(!filename_ok("a-b"));
    assert!(!filename_ok("a.rs"));
    assert!(!filename_ok("a b"));
    assert!(!filename_ok("a\n"));
    assert!(!filename_ok("\u{e9}a"));
}

#[test]
fn revision_ids_are_letters_digits_dashes_and_underscores() {
    assert!(revision_id_ok("t1Jy_CxeQoU"));
    assert!(revision_id_ok("-"));
    assert!(revision_id_ok("_"));
    assert!(revision_id_ok("0"));
    assert!(!revision_id_ok(""));
    assert!(!revision_id_ok("a b"));
    assert!(!revision_id_ok("a.b"));
    assert!(!revision_id_ok("a+"));
    assert!(!revision_id_ok("\u{e9}"));
}

#[test]
fn plain_words_have_no_dash() {
    assert!(plain_word_ok("migration"));
    assert!(plain_word_ok("2021"));
    assert!(plain_word_ok("_"));
    assert!(!plain_word_ok(""));
    assert!(!plain_word_ok("my-package"));
    assert!(!plain_word_ok("a b"));
}

#[test]
fn iso_dates_come_with_or_without_time() {
    assert!(iso_date_ok("2025-05-22"));
    assert!(iso_date_ok("2025-05-22T14:59:10"));
    assert!(iso_date_ok("2025-05-22 14:59:10"));
    assert!(iso_date_ok("0000-00-00"));
    assert!(!iso_date_ok(""));
    assert!(!iso_date_ok("2025-5-22"));
    assert!(!iso_date_ok("2025/05/22"));
    assert!(!iso_date_ok("2025-05-22T14:59"));
    assert!(!iso_date_ok("2025-05-22t14:59:10"));
    assert!(!iso_date_ok("2025-05-22T14:59:10Z"));
    assert!(!iso_date_ok("2025-05-22T14-59-10"));
    assert!(!iso_date_ok("2025-05-2a"));
    assert!(!iso_date_ok("2025-05-22T14:59:1a"));
    assert!(!iso_date_ok("2025-05-22\n"));
}

fn fault(builder: &vectorctl::template::RevisionTemplateBuilder) -> String {
    builder.validate().expect_err("the values are faulty")
}

#[test]
fn a_revision_template_names_its_first_fault() {
    let mut builder = RevisionTemplate::builder();
    assert_eq!(fault(&builder), "filename is required");
    builder.filename("9x");
    assert_eq!(
        fault(&builder),
        "Invalid Rust filename `9x`. It must match `^[a-zA-Z][a-zA-Z0-9_]*$`"
    );
    builder.filename("version_1");
    assert_eq!(fault(&builder), "date is required");
    builder.date("yesterday");
    assert_eq!(
        fault(&builder),
        "date `yesterday` must be ISO-8601: YYYY-MM-DD, YYYY-MM-DD HH:MM:SS, or YYYY-MM-DDT HH:MM:SS"
    );
    builder.date("2025-05-22T14:59:10");
    assert_eq!(fault(&builder), "revision_id is required");
    builder.revision_id("not valid");
    assert_eq!(
        fault(&builder),
        "revision_id `not valid` may only contain letters, numbers, dashes or underscores"
    );
    builder.revision_id("t1Jy_CxeQoU");
    assert_eq!(builder.validate(), Ok(()));
    builder.down_revision_id("");
    assert_eq!(
        fault(&builder),
        "down_revision_id `` may only contain letters, numbers, dashes or underscores"
    );
    builder.down_revision_id("prev-1");
    assert_eq!(builder.validate(), Ok(()));
    builder.message(" \t\n");
    assert_eq!(fault(&builder), "message cannot be empty");
    match builder.build() {
        Err(BuilderError::ValidationError(message)) => {
            assert_eq!(message, "message cannot be empty")
        }
        other => panic!("unexpected result {:?}", other),
    }
    builder.message("add a table");
    let template = builder.build().expect("the values meet the rules");
    assert_eq!(template.filename, "version_1");
    assert_eq!(template.date, "2025-05-22T14:59:10");
    assert_eq!(template.revision_id, "t1Jy_CxeQoU");
    assert_eq!(template.down_revision_id.as_deref(), Some("prev-1"));
    assert_eq!(template.message.as_deref(), Some("add a table"));
}

#[test]
fn builder_errors_are_written_as_sentences() {
    assert_eq!(BuilderError::ValidationError("bad".to_string()).to_string(), "bad");
}

#[test]
fn setters_chain() {
    let mut builder = RevisionTemplate::builder();
    builder.date("2025-05-22").revision_id("abc").filename("version_x");
    let template = builder.build().expect("the values meet the rules");
    assert_eq!(template.message, None);
    assert_eq!(template.down_revision_id, None);
    assert_eq!(template.filename, "version_x");
}

#[test]
fn a_migrator_template_needs_an_import() {
    let mut builder = MigratorTemplate::builder();
    assert_eq!(builder.validate(), Err("imports is required".to_string()));
    builder.imports(vec![]);
    assert_eq!(
        builder.validate(),
        Err("You should at least define one migration.".to_string())
    );
    assert!(matches!(builder.build(), Err(BuilderError::ValidationError(_))));
    builder.imports(vec!["version_1".to_string(), "version_2".to_string()]);
    assert_eq!(builder.validate(), Ok(()));
    let template = builder.build().expect("the values meet the rules");
    assert_eq!(template.imports, vec!["version_1", "version_2"]);
}

#[test]
fn a_revision_template_is_built_of_its_values() {
    let template = revision_template(
        "2025-05-22T14:59:10",
        "abc",
        "version_20250522_145910_init",
        Some("prev"),
        Some("hello"),
    )
    .expect("the values meet the rules");
    assert_eq!(template.date, "2025-05-22T14:59:10");
    assert_eq!(template.revision_id, "abc");
    assert_eq!(template.filename, "version_20250522_145910_init");
    assert_eq!(template.down_revision_id.as_deref(), Some("prev"));
    assert_eq!(template.message.as_deref(), Some("hello"));
    assert!(matches!(
        revision_template("2025-05-22", "", "version_x", None, None),
        Err(BuilderError::ValidationError(_))
    ));
}

#[test]
fn a_new_revision_is_dated_now_under_a_new_identifier() {
    let template = new_revision("init_migration", None, None).expect("a new revision");
    let name = Regex::new(r"^version_\d{8}_\d{6}_init_migration$").unwrap();
    assert!(name.is_match(&template.filename));
    assert!(id_re().is_match(&template.revision_id));
    assert!(iso_date_ok(&template.date));
    assert_eq!(template.down_revision_id, None);
    assert_eq!(template.message, None);
    let next = new_revision("add_table", Some(&template.revision_id), Some("msg"))
        .expect("a new revision");
    assert_eq!(next.down_revision_id, Some(template.revision_id));
    assert_eq!(next.message.as_deref(), Some("msg"));
    assert!(new_revision("no good name", None, None).is_err());
}

#[test]
fn migration_names_are_normalised() {
    assert_eq!(parse_migration_name("Add Table"), Ok("add_table".to_string()));
    assert_eq!(parse_migration_name("  Add  Users Table \n"), Ok("add__users_table".to_string()));
    assert_eq!(parse_migration_name("already_fine"), Ok("already_fine".to_string()));
    assert_eq!(parse_migration_name(""), Ok("".to_string()));
    assert_eq!(parse_migration_name("\u{c9}COLE"), Ok("\u{e9}cole".to_string()));
    assert_eq!(
        parse_migration_name("add-table"),
        Err("must not contain a hyphen (\"-\")".to_string())
    );
    assert_eq!(
        parse_migration_name("-"),
        Err("must not contain a hyphen (\"-\")".to_string())
    );
    assert!(has_hyphen("a-b"));
    assert!(!has_hyphen("a_b"));
    assert_eq!(underscore_spaces(" a b "), "_a_b_");
    assert_eq!(underscore_spaces("a\tb"), "a\tb");
}

#[test]
fn subcommands_come_to_operations() {
    assert!(matches!(
        operation(None),
        Operation::Run { direction: Direction::Up, to: None }
    ));
    match operation(Some(MigrateSubcommands::Up { to: Some("b".to_string()) })) {
        Operation::Run { direction: Direction::Up, to } => assert_eq!(to.as_deref(), Some("b")),
        other => panic!("unexpected operation {:?}", other),
    }
    match operation(Some(MigrateSubcommands::Down { to: Some("a".to_string()) })) {
        Operation::Run { direction: Direction::Down, to } => assert_eq!(to.as_deref(), Some("a")),
        other => panic!("unexpected operation {:?}", other),
    }
    assert!(matches!(
        operation(Some(MigrateSubcommands::Refresh)),
        Operation::Run { direction: Direction::Refresh, to: None }
    ));
    assert!(matches!(
        operation(Some(MigrateSubcommands::Reset)),
        Operation::Run { direction: Direction::Down, to: None }
    ));
    assert!(matches!(operation(Some(MigrateSubcommands::Status)), Operation::Status));
    match operation(Some(MigrateSubcommands::Init {
        package_name: Some("pkg".to_string()),
        rust_edition: None,
    })) {
        Operation::Init { package_name, rust_edition } => {
            assert_eq!(package_name.as_deref(), Some("pkg"));
            assert_eq!(rust_edition, None);
        }
        other => panic!("unexpected operation {:?}", other),
    }
    match operation(Some(MigrateSubcommands::Generate {
        name: "add".to_string(),
        message: Some("m".to_string()),
    })) {
        Operation::Generate { name, message } => {
            assert_eq!(name, "add");
            assert_eq!(message.as_deref(), Some("m"));
        }
        other => panic!("unexpected operation {:?}", other),
    }
}

#[test]
fn cargo_runs_the_subcommand_in_the_migration_crate() {
    let up = MigrateSubcommands::Up { to: Some("b".to_string()) };
    assert_eq!(command_args(&up), vec!["up", "--to", "b"]);
    assert_eq!(
        cargo_args(&up, "./migration/Cargo.toml", "http://localhost:6334/", Some("secret")),
        vec![
            "run",
            "--manifest-path",
            "./migration/Cargo.toml",
            "--",
            "up",
            "-u",
            "http://localhost:6334/",
            "-k",
            "secret",
            "--to",
            "b",
        ]
    );
    let generate =
        MigrateSubcommands::Generate { name: "add".to_string(), message: Some("m".to_string()) };
    assert_eq!(
        cargo_args(&generate, "Cargo.toml", "u", None),
        vec!["run", "--manifest-path", "Cargo.toml", "--", "generate", "-u", "u", "add", "-m", "m"]
    );
    assert_eq!(
        cargo_args(&MigrateSubcommands::Status, "Cargo.toml", "u", None),
        vec!["run", "--manifest-path", "Cargo.toml", "--", "status", "-u", "u"]
    );
    assert_eq!(command_args(&MigrateSubcommands::Down { to: None }), vec!["down"]);
    assert_eq!(command_args(&MigrateSubcommands::Refresh), vec!["refresh"]);
    assert_eq!(command_args(&MigrateSubcommands::Reset), vec!["reset"]);
}

#[test]
fn migration_files_are_listed_as_modules() {
    assert!(revision_file("version_20250101_011111_init_migration.rs"));
    assert!(revision_file("version.rs"));
    assert!(!revision_file("lib.rs"));
    assert!(!revision_file("version_1.txt"));
    assert!(!revision_file("my_version_1.rs"));
    assert!(!revision_file("versio.rs"));
    assert!(!revision_file(""));
    assert_eq!(module_name("version_1.rs"), "version_1");
    assert_eq!(module_name("version_1.rs.rs"), "version_1");
    assert_eq!(module_name("version_1"), "version_1");
    assert_eq!(module_name(".rs"), "");
    assert_eq!(module_name("a.rsx"), "a.rsx");
    let names: Vec<String> = ["lib.rs", "version_2.rs", "notes.md", "version_1.rs", "version_3.rs.bak"]
        .iter()
        .map(|name| name.to_string())
        .collect();
    assert_eq!(migration_modules(&names), vec!["version_2", "version_1"]);
    assert!(migration_modules(&vec![]).is_empty());
}

#[test]
fn a_refused_template_names_the_first_fault_of_its_values() {
    let fault = |result: Result<RevisionTemplate, BuilderError>| match result {
        Err(BuilderError::ValidationError(message)) => message,
        Ok(_) => panic!("the values are faulty"),
    };
    assert_eq!(
        fault(revision_template("today", "", "9x", Some(""), Some(" "))),
        "Invalid Rust filename `9x`. It must match `^[a-zA-Z][a-zA-Z0-9_]*$`"
    );
    assert_eq!(
        fault(revision_template("today", "", "version_x", Some(""), Some(" "))),
        "date `today` must be ISO-8601: YYYY-MM-DD, YYYY-MM-DD HH:MM:SS, or YYYY-MM-DDT HH:MM:SS"
    );
    assert_eq!(
        fault(revision_template("2025-05-22", "", "version_x", Some(""), Some(" "))),
        "revision_id `` may only contain letters, numbers, dashes or underscores"
    );
    assert_eq!(
        fault(revision_template("2025-05-22", "abc", "version_x", Some("a b"), Some(" "))),
        "down_revision_id `a b` may only contain letters, numbers, dashes or underscores"
    );
    assert_eq!(
        fault(revision_template("2025-05-22", "abc", "version_x", Some("prev"), Some(" "))),
        "message cannot be empty"
    );
}

#[test]
fn a_new_revision_is_refused_on_values_that_cannot_be_accepted() {
    let render = |result: Result<RevisionTemplate, MigrateError>| match result {
        Err(MigrateError::Render(message)) => message,
        other => panic!("unexpected result {:?}", other),
    };
    let message = render(new_revision("add-table", None, None));
    assert!(message.starts_with("Invalid Rust filename `version_"), "{}", message);
    assert!(
        message.ends_with("_add-table`. It must match `^[a-zA-Z][a-zA-Z0-9_]*$`"),
        "{}",
        message
    );
    assert_eq!(
        render(new_revision("add_table", Some("not valid"), None)),
        "down_revision_id `not valid` may only contain letters, numbers, dashes or underscores"
    );
    assert_eq!(render(new_revision("add_table", Some("prev"), Some("\t "))), "message cannot be empty");
    let made = new_revision("", Some("prev"), Some("m")).expect("an empty name can be accepted");
    assert!(made.filename.ends_with('_'));
    assert!(made.revision_id.len() <= 11);
    assert!(made.revision_id.chars().all(|c| c.is_ascii_alphabetic()));
}
