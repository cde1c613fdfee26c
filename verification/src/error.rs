//! The uniform error value of the library: a tagged kind, one per failure
//! condition, together with a human-readable message.

use vstd::prelude::*;

verus! {

/// One variant per failure condition of the whole module: path remapping,
/// configuration serialization, the two steps of writing the configuration
/// file, and the read, path-to-text conversion and two write steps of the
/// template renderer.
#[derive(Clone, Copy, Debug, PartialEq, Eq, Structural)]
pub enum ErrorKind {
    /// A file path was not a descendant of the base directory.
    PathMapping,
    /// The configuration cannot be represented in its canonical text form.
    Serialization,
    /// The configuration file could not be created.
    ConfigCreate,
    /// The configuration file could not be written.
    ConfigWrite,
    /// The template file could not be read.
    TemplateUnreadable,
    /// A path could not be represented as text.
    PathEncoding,
    /// The rendered template file could not be created.
    ComposeCreate,
    /// The rendered template file could not be written.
    ComposeWrite,
}

/// The error value every fallible operation returns: the condition that
/// failed, and a message for a human reader.
#[derive(Debug)]
pub struct ContainerError {
    pub kind: ErrorKind,
    pub message: String,
}

impl ContainerError {
    /// Builds an error of the given kind carrying the given message.
    pub fn new(kind: ErrorKind, msg: &str) -> (e: ContainerError)
        ensures
            e.kind == kind,
            e.message@ == msg@,
    {
        ContainerError { kind, message: msg.to_owned() }
    }
}

} // verus!
