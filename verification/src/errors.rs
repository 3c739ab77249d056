//! Error kinds shared by every component of the orchestrator.

use vstd::prelude::*;

verus! {

/// Every failure the orchestrator can surface, with enough payload to
/// identify the failing node or operation.
#[derive(PartialEq, Eq, Clone, Debug)]
pub enum Error {
    /// A state file, node name or instance that should exist does not.
    NotFound(String),
    /// A persisted scalar (port, pid, uuid) failed to parse.
    Invalid(String),
    /// The serialized topology record cannot be parsed.
    Corrupt(String),
    /// The hypervisor backend process could not be created.
    Spawn(String),
    /// An RPC to a hypervisor instance failed.
    Backend(String),
    /// A snapshot-pipeline command exited non-zero; carries its stderr.
    StorageCommand(String),
    /// A generic filesystem or network failure.
    Io(String),
    /// The command line violated the argument contract.
    Usage(String),
}

} // verus!
