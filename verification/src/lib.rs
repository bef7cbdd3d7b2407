//! Format detection, adapter routing and the pure conversion logic of a
//! local, offline, extension-agnostic file converter.
use vstd::prelude::*;

pub mod adapters;
pub mod data_adapter;
pub mod detection;
pub mod doc_adapter;
pub mod errors;
pub mod format;
pub mod image_adapter;
pub mod job;
pub mod listing;
pub mod markup_adapter;
pub mod pdf_adapter;
pub mod registry;
pub mod router;
pub mod text;
pub mod validation;

pub use detection::sniff_bytes;
pub use errors::{DetectError, JobError, RouteError, ValidationError};
pub use format::Format;
pub use job::JobReport;
pub use registry::{ConversionAdapter, Registry};

verus! {

} // verus!
