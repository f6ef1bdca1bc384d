//! The metadata that a migration declares, and the trait through which a
//! user's migration hands it over.

use crate::chain::Link;
use vstd::prelude::*;

verus! {

/// The metadata attached to a migration, as its author writes it down.
#[derive(Debug)]
pub struct Revision<'a> {
    pub message: Option<&'a str>,
    pub revision: &'a str,
    pub down_revision: Option<&'a str>,
    pub date: &'a str,
}

/// What every migration can tell about itself.
pub trait MigrationMeta {
    /// The display name, by convention the stem of the migration's source
    /// file. It is the key under which the ledger records the migration.
    fn name(&self) -> String;

    /// The revision identifier, the parent's identifier, the date and the
    /// message.
    fn revision(&self) -> Revision<'_>;
}

/// An owned copy of a migration's metadata, taken once when the migration is
/// registered, so that later decisions all rest on the same values.
#[derive(Debug)]
pub struct Metadata {
    pub name: String,
    pub revision: String,
    pub down_revision: Option<String>,
    pub date: String,
    pub message: Option<String>,
}

/// The characters of an optional slice.
pub open spec fn opt_view(text: Option<&str>) -> Option<Seq<char>> {
    match text {
        Some(s) => Some(s@),
        None => None,
    }
}

/// The characters of an optional string.
pub open spec fn opt_text(text: Option<String>) -> Option<Seq<char>> {
    match text {
        Some(s) => Some(s@),
        None => None,
    }
}

fn copy_opt(text: Option<&str>) -> (copy: Option<String>)
    ensures
        opt_text(copy) == opt_view(text),
{
    match text {
        Some(s) => Some(s.to_string()),
        None => None,
    }
}

impl Metadata {
    /// The place in the chain that this metadata declares.
    pub open spec fn link(self) -> Link {
        Link { revision: self.revision@, down: opt_text(self.down_revision) }
    }

    /// Copies a display name and a borrowed revision into owned metadata.
    pub fn new(name: String, revision: &Revision<'_>) -> (meta: Metadata)
        ensures
            meta.name == name,
            meta.revision@ == revision.revision@,
            opt_text(meta.down_revision) == opt_view(revision.down_revision),
            meta.date@ == revision.date@,
            opt_text(meta.message) == opt_view(revision.message),
    {
        Metadata {
            name,
            revision: revision.revision.to_string(),
            down_revision: copy_opt(revision.down_revision),
            date: revision.date.to_string(),
            message: copy_opt(revision.message),
        }
    }

    /// Reads a migration's metadata through its trait. What the two methods
    /// return is the implementor's business; the copy holds exactly that.
    pub(crate) fn of<M: MigrationMeta>(migration: &M) -> (meta: Metadata) {
        let name = migration.name();
        let revision = migration.revision();
        Metadata::new(name, &revision)
    }

    /// The metadata as the borrowed form that migrations declare.
    pub fn as_revision(&self) -> (revision: Revision<'_>)
        ensures
            revision.revision@ == self.revision@,
            opt_view(revision.down_revision) == opt_text(self.down_revision),
            revision.date@ == self.date@,
            opt_view(revision.message) == opt_text(self.message),
    {
        Revision {
            message: match &self.message {
                Some(s) => Some(s.as_str()),
                None => None,
            },
            revision: self.revision.as_str(),
            down_revision: match &self.down_revision {
                Some(s) => Some(s.as_str()),
                None => None,
            },
            date: self.date.as_str(),
        }
    }
}

} // verus!
