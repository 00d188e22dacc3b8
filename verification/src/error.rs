//! The kinds of failure a frame can raise, and the trap a caller observes.

use vstd::prelude::*;

verus! {

/// Why an operation of the model failed.
#[derive(Clone, Copy, Debug, PartialEq, Eq, Structural)]
pub enum ErrorKind {
    /// Bytes were truncated, malformed, or of another type than expected.
    Deserialization,
    /// An argument index was past the end of the argument list.
    ArgumentMissing,
    /// An argument did not have the declared type.
    ArgumentType,
    /// The reference does not carry the right that the operation needs.
    PermissionDenied,
    /// The rights asked for are not a subset of the source's rights.
    InvalidRights,
    /// The slot that the reference addresses was never written.
    ValueNotFound,
    /// The stored value cannot be merged with the supplied one.
    TypeMismatch,
    /// The name has no binding in the map.
    UnboundName,
    /// No contract is registered under the identity.
    ContractNotFound,
    /// The entry point does not know the method name.
    UnknownEntryPoint,
    /// The call would go deeper than the environment allows.
    ResourceLimit,
}

/// A contract execution error: the frame at `depth` raised `cause` and
/// was unwound, with every frame between it and the caller that sees
/// the trap. Depth 0 is the top-level deployment, depth 1 a contract
/// that it invoked, and so on.
#[derive(Clone, Copy, Debug, PartialEq, Eq, Structural)]
pub struct Trap {
    pub cause: ErrorKind,
    pub depth: u32,
}

} // verus!
