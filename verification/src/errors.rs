//! Error hierarchy of the conversion pipeline. Every fallible operation
//! returns one of these variants, so callers can react to each kind of
//! failure programmatically.
use vstd::prelude::*;
use std::path::PathBuf;

verus! {

/// A filesystem path, carried through errors and reports unread.
#[verifier::external_type_specification]
#[verifier::external_body]
pub struct ExPathBuf(PathBuf);

/// An I/O error, carried through errors unread.
#[verifier::external_type_specification]
#[verifier::external_body]
pub struct ExIoError(std::io::Error);

#[derive(Debug)]
pub enum DetectError {
    /// The input file does not exist.
    NotFound(PathBuf),
    /// The input file is empty (0 bytes).
    EmptyFile(PathBuf),
    /// Not enough bytes could be read to sniff the format.
    Read { path: PathBuf, source: std::io::Error },
    /// No sniffer recognised the byte signature.
    UnknownSignature(PathBuf),
}

#[derive(Debug)]
pub enum RouteError {
    /// No registered adapter converts `from` into `to`.
    NoRoute { from: String, to: String },
    /// Source and target formats are identical; nothing to convert.
    IdenticalFormats(String),
    /// The target format is not a known format.
    UnknownTargetFormat(String),
}

#[derive(Debug)]
pub enum ValidationError {
    /// The output file was not created at the expected path.
    OutputMissing(PathBuf),
    /// The output file is empty; the conversion likely failed silently.
    OutputEmpty(PathBuf),
    /// The output's signature did not match the expected target format.
    SignatureMismatch { expected: String, actual: Option<String> },
    /// The output failed a structural integrity check.
    StructuralIntegrity(String),
}

#[derive(Debug)]
pub enum JobError {
    Detect(DetectError),
    Route(RouteError),
    Validation(ValidationError),
    /// An adapter failed to convert `input` into `output`.
    AdapterFailure { adapter: &'static str, input: PathBuf, output: PathBuf, message: String },
    /// A filesystem operation failed at `path`.
    Io { path: PathBuf, source: std::io::Error },
    /// A temporary working file could not be created.
    Tempfile(std::io::Error),
    /// Every collision-free output name was taken.
    CollisionExhausted { path: PathBuf, attempts: u32 },
    /// An external tool is not installed or not on `PATH`.
    MissingExternalTool { tool: &'static str },
    /// An external tool exited with a non-zero status.
    ExternalToolFailed { tool: &'static str, code: Option<i32>, stderr: String },
}

} // verus!
