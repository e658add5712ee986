use vstd::prelude::*;

verus! {

/// The error taxonomy of the binder. Every condition that the walk can hit is
/// reported as one of these; the run then aborts, there is no recovery.
#[derive(Clone, Copy, PartialEq, Eq, Structural, Debug)]
pub enum Error {
    /// A graph name was referenced outside a definition header before the
    /// graph was declared.
    UndeclaredGraphReference,
    /// A node name was referenced in a non-declaring context before it was
    /// declared in the current graph.
    UndeclaredNodeReference,
    /// A node name was referenced while no graph was active.
    GraphContextMissing,
    /// An assignment's right-hand side resolved to neither a number literal
    /// nor a node reference.
    InvalidAssignmentRhs,
    /// An abstract-syntax-tree node was about to be attached under, or read
    /// from, a parent of an unexpected kind.
    StructuralInvariantViolation,
    /// A number literal was not a base-10 signed integer, or its value does
    /// not fit in 32 signed bits.
    MalformedNumberLiteral,
    /// The shared variable store is full: slots are 32-bit signed indices, so
    /// at most 0x7fff_ffff of them can exist.
    TooManyNodes,
}

} // verus!
