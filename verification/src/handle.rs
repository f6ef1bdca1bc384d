//! Persistence handles: the identifiers under which the ledger stores its
//! records.

use uuid::Uuid;
use vstd::prelude::*;

verus! {

/// `uuid::Uuid`, as a value that is only handed on.
#[verifier::external_type_specification]
#[verifier::external_body]
pub struct ExUuid(Uuid);

/// The text of a handle: its hyphenated lower-case form.
pub uninterp spec fn handle_text(id: Uuid) -> Seq<char>;

/// The handle that a text denotes, if it denotes one.
pub uninterp spec fn parsed_handle(text: Seq<char>) -> Option<Uuid>;

/// `Uuid::now_v7`: a new version 7 identifier, made from the clock and from
/// random bits. Nothing is claimed of its value.
#[verifier::external_body]
pub(crate) fn fresh_handle() -> Uuid {
    Uuid::now_v7()
}

/// `Uuid`'s `Display`, through `to_string`: the hyphenated lower-case text.
/// The crate's parser reads that text back as the same identifier.
#[verifier::external_body]
pub(crate) fn handle_to_text(id: &Uuid) -> (text: String)
    ensures
        text@ == handle_text(*id),
        parsed_handle(text@) == Some(*id),
{
    id.to_string()
}

/// `Uuid::try_parse`, with the error dropped: the identifier that the text
/// denotes, or nothing where the text is no identifier.
#[verifier::external_body]
pub(crate) fn parse_handle(text: &str) -> (id: Option<Uuid>)
    ensures
        id == parsed_handle(text@),
{
    Uuid::try_parse(text).ok()
}

} // verus!
