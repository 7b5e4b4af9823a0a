//! What the node asks of the personas that run behind its membrane.

use vstd::prelude::*;

verus! {

/// The personas of a node: the logic that acts on what the network delivers. The node
/// makes them and hands them over; it never looks inside.
pub trait Interface {
}

/// The factory that makes the personas of a node.
pub trait CreatePersonas<F: Interface> {
    /// Makes a fresh set of personas.
    fn create_personas(&mut self) -> F;
}

} // verus!
