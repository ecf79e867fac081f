//! The errors of the runtime.

use vstd::prelude::*;

verus! {

/// What can go wrong in the runtime.
#[derive(Debug)]
pub enum FlowError {
    /// A payload was asked for as a type that it does not hold.
    TypeMismatch,
    /// A firing has no input on a port that the node asks for.
    MissingInput,
    /// A message was sent on a link whose receiver is gone.
    PortDisconnected,
    /// A link is drained and its sender is gone.
    EndOfStream,
    /// A payload could not be decoded while a node was initialised.
    DeserializationError,
    /// A configuration was refused.
    ConfigurationError,
    /// A node with this identifier is already part of the dataflow.
    DuplicateNode,
    /// A link or a request names a node or a port that the dataflow does
    /// not have.
    UnknownPort,
    /// A link joins two ports of different types.
    PortTypeMismatch,
    /// A link ends at an input port that already has a link.
    DuplicateLink,
    /// A node that runs was asked to start.
    AlreadyRunning,
    /// A node that does not run was asked to stop.
    NotRunning,
    /// An error that a callback of a node returned, in its own words.
    UserError(String),
}

} // verus!
