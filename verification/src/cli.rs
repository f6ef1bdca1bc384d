//! The subcommands of the command line, and what each of them comes to.

use crate::migrator::Direction;
use crate::text::{
    chars_of, lowercase_text, lowercased, text_of, trimmed, trimmed_text, underscored, views,
};
use vstd::prelude::*;

verus! {

/// The subcommands that deal with migrations.
#[derive(Debug, PartialEq, Eq)]
pub enum MigrateSubcommands {
    /// Initialize the migration directory.
    Init { package_name: Option<String>, rust_edition: Option<String> },
    /// Generate a new migration.
    Generate { name: String, message: Option<String> },
    /// Run the pending migrations, up to a revision.
    Up { to: Option<String> },
    /// Revert the applied migrations, down to a revision.
    Down { to: Option<String> },
    /// Revert every applied migration, then run them all.
    Refresh,
    /// Revert every applied migration.
    Reset,
    /// Report the status of every migration.
    Status,
}

/// What a run of the program has to do.
#[derive(Debug)]
pub enum Operation {
    /// Set up the migration directory.
    Init { package_name: Option<String>, rust_edition: Option<String> },
    /// Set up the file of a new migration.
    Generate { name: String, message: Option<String> },
    /// Run the migrator in a direction, to a target.
    Run { direction: Direction, to: Option<String> },
    /// Report the status of every migration.
    Status,
}

/// What a subcommand comes to. Without a subcommand every pending migration
/// is run; a reset is a downward run without a target.
pub fn operation(command: Option<MigrateSubcommands>) -> (operation: Operation)
    ensures
        operation == (match command {
            Some(MigrateSubcommands::Init { package_name, rust_edition }) => Operation::Init {
                package_name,
                rust_edition,
            },
            Some(MigrateSubcommands::Generate { name, message }) => Operation::Generate {
                name,
                message,
            },
            Some(MigrateSubcommands::Up { to }) => Operation::Run { direction: Direction::Up, to },
            Some(MigrateSubcommands::Down { to }) => Operation::Run {
                direction: Direction::Down,
                to,
            },
            Some(MigrateSubcommands::Refresh) => Operation::Run {
                direction: Direction::Refresh,
                to: None,
            },
            Some(MigrateSubcommands::Reset) => Operation::Run {
                direction: Direction::Down,
                to: None,
            },
            Some(MigrateSubcommands::Status) => Operation::Status,
            None => Operation::Run { direction: Direction::Up, to: None },
        }),
{
    match command {
        Some(MigrateSubcommands::Init { package_name, rust_edition }) => Operation::Init {
            package_name,
            rust_edition,
        },
        Some(MigrateSubcommands::Generate { name, message }) => Operation::Generate {
            name,
            message,
        },
        Some(MigrateSubcommands::Up { to }) => Operation::Run { direction: Direction::Up, to },
        Some(MigrateSubcommands::Down { to }) => Operation::Run { direction: Direction::Down, to },
        Some(MigrateSubcommands::Refresh) => Operation::Run {
            direction: Direction::Refresh,
            to: None,
        },
        Some(MigrateSubcommands::Reset) => Operation::Run { direction: Direction::Down, to: None },
        Some(MigrateSubcommands::Status) => Operation::Status,
        None => Operation::Run { direction: Direction::Up, to: None },
    }
}

/// What is said of a migration name with a hyphen.
pub open spec fn hyphen_message() -> Seq<char> {
    "must not contain a hyphen (\"-\")"@
}

/// The name of a migration as it is used: trimmed, in lower case, with
/// underscores for spaces.
pub open spec fn migration_name(raw: Seq<char>) -> Seq<char> {
    underscored(lowercase_text(trimmed_text(raw)))
}

/// The text with every space replaced by an underscore.
pub fn underscore_spaces(text: &str) -> (out: String)
    ensures
        out@ == underscored(text@),
{
    let chars = chars_of(text);
    let mut replaced: Vec<char> = Vec::new();
    let mut i: usize = 0;
    while i < chars.len()
        invariant
            i <= chars@.len(),
            replaced@.len() == i,
            forall|k: int|
                0 <= k < i ==> replaced@[k] == (if chars@[k] == ' ' {
                    '_'
                } else {
                    chars@[k]
                }),
        decreases chars@.len() - i,
    {
        if chars[i] == ' ' {
            replaced.push('_');
        } else {
            replaced.push(chars[i]);
        }
        i = i + 1;
    }
    assert(replaced@ == underscored(chars@));
    text_of(&replaced)
}

/// Whether the text holds a hyphen.
pub fn has_hyphen(text: &str) -> (found: bool)
    ensures
        found == text@.contains('-'),
{
    let chars = chars_of(text);
    let mut i: usize = 0;
    while i < chars.len()
        invariant
            chars@ == text@,
            i <= chars@.len(),
            forall|k: int| 0 <= k < i ==> chars@[k] != '-',
        decreases chars@.len() - i,
    {
        if chars[i] == '-' {
            assert(text@[i as int] == '-');
            return true;
        }
        i = i + 1;
    }
    false
}

/// Reads the name of a new migration from the command line. A name with a
/// hyphen is refused; any other is trimmed, put in lower case, and has its
/// spaces replaced by underscores.
pub fn parse_migration_name(raw: &str) -> (result: Result<String, String>)
    ensures
        match result {
            Ok(name) => !raw@.contains('-') && name@ == migration_name(raw@),
            Err(message) => raw@.contains('-') && message@ == hyphen_message(),
        },
{
    if has_hyphen(raw) {
        Err("must not contain a hyphen (\"-\")".to_string())
    } else {
        let lower = lowercased(trimmed(raw));
        Ok(underscore_spaces(lower.as_str()))
    }
}

/// The arguments that carry a target: `--to` and the revision, or nothing.
pub open spec fn target_args(to: Option<String>) -> Seq<Seq<char>> {
    match to {
        Some(revision) => seq!["--to"@, revision@],
        None => Seq::empty(),
    }
}

/// The name of a subcommand on the command line of the migration crate, and
/// the arguments that follow it.
pub open spec fn command_words(command: MigrateSubcommands) -> Seq<Seq<char>> {
    match command {
        MigrateSubcommands::Init { .. } => seq!["init"@],
        MigrateSubcommands::Generate { name, message } => match message {
            Some(text) => seq!["generate"@, name@, "-m"@, text@],
            None => seq!["generate"@, name@],
        },
        MigrateSubcommands::Up { to } => seq!["up"@] + target_args(to),
        MigrateSubcommands::Down { to } => seq!["down"@] + target_args(to),
        MigrateSubcommands::Refresh => seq!["refresh"@],
        MigrateSubcommands::Reset => seq!["reset"@],
        MigrateSubcommands::Status => seq!["status"@],
    }
}

/// The arguments for `cargo` that run a subcommand in the migration crate:
/// `run`, the manifest, `--`, the subcommand, the database URL, the API key
/// where there is one, and then the subcommand's own arguments.
pub open spec fn cargo_words(
    command: MigrateSubcommands,
    manifest: Seq<char>,
    database_url: Seq<char>,
    api_key: Option<Seq<char>>,
) -> Seq<Seq<char>> {
    let words = command_words(command);
    let front = seq!["run"@, "--manifest-path"@, manifest, "--"@, words[0], "-u"@, database_url];
    let key = match api_key {
        Some(key) => seq!["-k"@, key],
        None => Seq::empty(),
    };
    front + key + words.skip(1)
}

fn push_word(words: &mut Vec<String>, word: &str)
    ensures
        views(final(words)@) == views(old(words)@).push(word@),
{
    words.push(word.to_string());
    assert(views(words@) == views(old(words)@).push(word@));
}

/// The subcommand's own words: its name first, then its arguments.
pub fn command_args(command: &MigrateSubcommands) -> (words: Vec<String>)
    ensures
        views(words@) == command_words(*command),
        words@.len() >= 1,
{
    let mut words: Vec<String> = Vec::new();
    assert(views(words@) == Seq::<Seq<char>>::empty());
    match command {
        MigrateSubcommands::Init { .. } => {
            push_word(&mut words, "init");
        },
        MigrateSubcommands::Generate { name, message } => {
            push_word(&mut words, "generate");
            push_word(&mut words, name.as_str());
            match message {
                Some(text) => {
                    push_word(&mut words, "-m");
                    push_word(&mut words, text.as_str());
                },
                None => {},
            }
        },
        MigrateSubcommands::Up { to } => {
            push_word(&mut words, "up");
            match to {
                Some(revision) => {
                    push_word(&mut words, "--to");
                    push_word(&mut words, revision.as_str());
                },
                None => {},
            }
        },
        MigrateSubcommands::Down { to } => {
            push_word(&mut words, "down");
            match to {
                Some(revision) => {
                    push_word(&mut words, "--to");
                    push_word(&mut words, revision.as_str());
                },
                None => {},
            }
        },
        MigrateSubcommands::Refresh => {
            push_word(&mut words, "refresh");
        },
        MigrateSubcommands::Reset => {
            push_word(&mut words, "reset");
        },
        MigrateSubcommands::Status => {
            push_word(&mut words, "status");
        },
    }
    proof {
        assert(views(words@) =~= command_words(*command));
    }
    words
}

/// The arguments for `cargo` that run a subcommand in the migration crate.
pub fn cargo_args(
    command: &MigrateSubcommands,
    manifest: &str,
    database_url: &str,
    api_key: Option<&str>,
) -> (args: Vec<String>)
    ensures
        views(args@) == cargo_words(
            *command,
            manifest@,
            database_url@,
            crate::revision::opt_view(api_key),
        ),
{
    let words = command_args(command);
    let mut args: Vec<String> = Vec::new();
    assert(views(args@) == Seq::<Seq<char>>::empty());
    push_word(&mut args, "run");
    push_word(&mut args, "--manifest-path");
    push_word(&mut args, manifest);
    push_word(&mut args, "--");
    push_word(&mut args, words[0].as_str());
    push_word(&mut args, "-u");
    push_word(&mut args, database_url);
    match api_key {
        Some(key) => {
            push_word(&mut args, "-k");
            push_word(&mut args, key);
        },
        None => {},
    }
    let ghost front = views(args@);
    let mut i: usize = 1;
    while i < words.len()
        invariant
            1 <= i <= words@.len(),
            views(args@) == front + views(words@).subrange(1, i as int),
        decreases words@.len() - i,
    {
        push_word(&mut args, words[i].as_str());
        proof {
            assert(views(words@).subrange(1, i + 1) == views(words@).subrange(1, i as int).push(
                words@[i as int]@,
            ));
        }
        i = i + 1;
    }
    proof {
        assert(views(words@).subrange(1, words@.len() as int) == views(words@).skip(1));
        assert(views(args@) =~= cargo_words(
            *command,
            manifest@,
            database_url@,
            crate::revision::opt_view(api_key),
        ));
    }
    args
}

} // verus!
