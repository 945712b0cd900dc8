//! Work-item query and projection pipeline for an Azure DevOps boards backend.
//!
//! The library builds safe WIQL filter queries, plans capped and chunked batch
//! retrieval of work items, drives continuation-token pagination of comments,
//! simplifies raw work-item JSON trees into compact flat records, and projects
//! those records to delimited text.

use vstd::prelude::*;

pub mod args;
pub mod batch;
pub mod json;
pub mod listings;
pub mod models;
pub mod paginate;
pub mod project;
pub mod query;
pub mod richtext;
pub mod serial;
pub mod simplify;
pub mod text;

verus! {

/// Largest number of work-item identifiers one retrieval call may request.
pub const MAX_FETCH_IDS: usize = 1000;

/// Largest number of identifiers handed to the backend in a single chunk.
pub const CHUNK_SIZE: usize = 200;

/// A structured failure of the pipeline.
#[derive(Debug)]
pub enum PipelineError {
    /// The caller handed something malformed: a projection input that is
    /// neither object nor array, or an unparsable extra-fields payload.
    InvalidInput { message: String },
    /// The backend answered with a non-success response; its message text
    /// is preserved.
    Upstream { message: String },
    /// An encoding step failed; not expected in normal operation.
    SerializationError { message: String },
}

/// The message text a rejected projection input carries.
pub open spec fn spec_invalid_projection_message() -> Seq<char> {
    "Invalid input: expected object or array"@
}

impl PipelineError {
    /// The message text of the failure.
    pub fn message(&self) -> (r: &str)
        ensures
            r@ == match self {
                PipelineError::InvalidInput { message } => message@,
                PipelineError::Upstream { message } => message@,
                PipelineError::SerializationError { message } => message@,
            },
    {
        match self {
            PipelineError::InvalidInput { message } => message.as_str(),
            PipelineError::Upstream { message } => message.as_str(),
            PipelineError::SerializationError { message } => message.as_str(),
        }
    }
}

/// The error a rejected projection input raises.
pub fn invalid_projection_input_error() -> (e: PipelineError)
    ensures
        e matches PipelineError::InvalidInput { message } && message@
            == spec_invalid_projection_message(),
{
    PipelineError::InvalidInput {
        message: <String as vstd::string::StringExecFns>::from_str("Invalid input: expected object or array"),
    }
}

} // verus!
