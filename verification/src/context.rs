//! The error of the context that a run hands to the user's migrations.

use crate::text::joined;
use vstd::prelude::*;

verus! {

/// Why the context could not serve a migration.
#[derive(Debug)]
pub enum ContextError {
    /// A resource that a migration asked for is not in the context.
    Resource(String),
}

impl ContextError {
    /// What the error says of the resource.
    pub open spec fn detail(self) -> Seq<char> {
        match self {
            ContextError::Resource(detail) => detail@,
        }
    }

    /// What is reported for a missing resource of the type named
    /// `kind`.
    pub open spec fn missing_detail(kind: Seq<char>) -> Seq<char> {
        "Resource `"@ + kind + "` does not exist."@
    }

    /// The error for a missing resource of the type named `kind`.
    pub fn missing(kind: &str) -> (error: ContextError)
        ensures
            error.detail() == ContextError::missing_detail(kind@),
    {
        let mut detail = joined("Resource `", kind);
        detail.append("` does not exist.");
        ContextError::Resource(detail)
    }

    /// The error as a sentence.
    pub fn to_string(&self) -> (text: String)
        ensures
            text@ == "Resource: "@ + self.detail(),
    {
        match self {
            ContextError::Resource(detail) => joined("Resource: ", detail.as_str()),
        }
    }

    /// What a lookup of the resource of the type named `kind` comes to:
    /// the resource where it was found, the error for a missing resource
    /// where it was not.
    pub fn found<R>(resource: Option<R>, kind: &str) -> (result: Result<R, ContextError>)
        ensures
            match resource {
                Some(r) => result == Ok::<R, ContextError>(r),
                None => result matches Err(error) && error.detail() == ContextError::missing_detail(
                    kind@,
                ),
            },
    {
        match resource {
            Some(r) => Ok(r),
            None => Err(ContextError::missing(kind)),
        }
    }
}

} // verus!
