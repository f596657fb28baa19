//! The error taxonomy of the library.

use vstd::prelude::*;
use crate::schema::FieldType;

verus! {

/// Spec-level image of an [`IndexError`]: field and value text as character
/// sequences.
pub enum ErrV {
    FieldNotFound { name: Seq<char> },
    ValueParseError { value: Seq<char>, kind: FieldType },
    IoError { path: Seq<char>, message: Seq<char> },
    EngineError { message: Seq<char> },
}

/// Error taxonomy of the library.
///
/// Construction-time validation produces `FieldNotFound` (a name that the
/// schema does not hold) and `ValueParseError` (a raw value that does not
/// parse against its declared kind). `IoError` and `EngineError` carry
/// failures of the storage layer and of the index engine; the in-memory
/// session never produces them itself, they enter through the embedding
/// around the library.
#[derive(Debug)]
pub enum IndexError {
    FieldNotFound { name: String },
    ValueParseError { value: String, kind: FieldType },
    IoError { path: String, message: String },
    EngineError { message: String },
}

impl View for IndexError {
    type V = ErrV;

    open spec fn view(&self) -> ErrV {
        match self {
            IndexError::FieldNotFound { name } => ErrV::FieldNotFound { name: name@ },
            IndexError::ValueParseError { value, kind } => ErrV::ValueParseError {
                value: value@,
                kind: *kind,
            },
            IndexError::IoError { path, message } => ErrV::IoError {
                path: path@,
                message: message@,
            },
            IndexError::EngineError { message } => ErrV::EngineError { message: message@ },
        }
    }
}

} // verus!
