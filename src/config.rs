//! The command line: one subcommand, `watch`, which runs the build server.

use vstd::prelude::*;

verus! {

#[derive(Clone, Copy, PartialEq, Eq, Structural, Debug)]
pub enum Commands {
    Watch,
}

#[derive(Clone, Copy, PartialEq, Eq, Structural, Debug)]
pub struct Arguments {
    pub command: Commands,
}

/// Why a handle could not reach the notes service.
#[derive(Clone, Copy, PartialEq, Eq, Structural, Debug)]
pub enum NotesServiceHandleError {
    /// The service stopped before taking the request.
    Send,
    /// The service stopped before answering.
    Receive,
}

/// Why a path could not be made a file of the project.
#[derive(Clone, Copy, PartialEq, Eq, Structural, Debug)]
pub enum SystemWorldCreationError {
    PathOutsideRoot,
}

} // verus!
