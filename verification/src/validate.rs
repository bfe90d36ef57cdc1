//! Document field validation.

use vstd::prelude::*;

verus! {

/// Why a document's identifying fields were rejected.
#[derive(Debug, Clone, Copy, PartialEq, Eq, Structural)]
pub enum ValidationError {
    /// The `_id` field is missing.
    MissingId,
    /// The `_type` field is missing.
    MissingType,
    /// The `_id` field is empty.
    EmptyId,
    /// The `_type` field is empty.
    EmptyType,
}

/// Check that a document carries a non-empty `_id` and a non-empty
/// `_type`. The id is checked first, so an id failure is reported even
/// when the type would fail too.
pub fn validate_document_fields(id: Option<&str>, doc_type: Option<&str>) -> (r: Result<
    (),
    ValidationError,
>)
    ensures
        match r {
            Ok(_) => {
                &&& id matches Some(i) && i@.len() > 0
                &&& doc_type matches Some(t) && t@.len() > 0
            },
            Err(e) => match e {
                ValidationError::MissingId => id is None,
                ValidationError::EmptyId => id matches Some(i) && i@.len() == 0,
                ValidationError::MissingType => {
                    &&& id matches Some(i) && i@.len() > 0
                    &&& doc_type is None
                },
                ValidationError::EmptyType => {
                    &&& id matches Some(i) && i@.len() > 0
                    &&& doc_type matches Some(t) && t@.len() == 0
                },
            },
        },
{
    match id {
        None => {
            return Err(ValidationError::MissingId);
        },
        Some(i) => {
            if i.unicode_len() == 0 {
                return Err(ValidationError::EmptyId);
            }
        },
    }
    match doc_type {
        None => {
            return Err(ValidationError::MissingType);
        },
        Some(t) => {
            if t.unicode_len() == 0 {
                return Err(ValidationError::EmptyType);
            }
        },
    }
    Ok(())
}

} // verus!
