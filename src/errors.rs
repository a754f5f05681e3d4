//! Errors of the table layer and of the entity operations.
use vstd::prelude::*;
use vstd::string::*;

use crate::id::ID;

verus! {

/// Failures of the table access layer.
#[derive(Debug)]
pub enum DynamoDbErrors {
    /// A stored item lacks an attribute, holds one of the wrong type, or
    /// holds text that does not parse.
    UnexpectedDataFormat(String),
    /// The store rejected the request.
    RequestFailure,
}

/// Failures of the entity operations.
#[derive(Debug)]
pub enum Errors {
    /// No entity has the identifier.
    NotFound,
    /// The request names the wrong kind of identifier, or an owner the item
    /// is not linked to.
    InvalidValue(String),
    /// The table layer failed.
    Database(DynamoDbErrors),
}

impl From<DynamoDbErrors> for Errors {
    fn from(e: DynamoDbErrors) -> (r: Errors)
        ensures
            r == Errors::Database(e),
    {
        Errors::Database(e)
    }
}

impl vstd::std_specs::convert::FromSpecImpl<DynamoDbErrors> for Errors {
    open spec fn obeys_from_spec() -> bool {
        true
    }

    open spec fn from_spec(e: DynamoDbErrors) -> Errors {
        Errors::Database(e)
    }
}

/// The error of an item that lacks an attribute or holds one that does not parse.
pub open spec fn is_format_error(e: Errors) -> bool {
    match e {
        Errors::Database(d) => d is UnexpectedDataFormat,
        _ => false,
    }
}

/// Rejects an identifier of another kind than `expected_kind`, so that a
/// request cannot reach entities of a kind it is not meant for.
pub fn check_id_kind(id: &ID, expected_kind: &str) -> (r: Result<(), Errors>)
    ensures
        r is Ok <==> id@.kind == expected_kind@,
        r is Err ==> r->Err_0 is InvalidValue,
{
    if !id.has_type_name(expected_kind) {
        let mut message = String::from_str("Expected ID with '");
        message.append(expected_kind);
        message.append("'");
        Err(Errors::InvalidValue(message))
    } else {
        Ok(())
    }
}

} // verus!
