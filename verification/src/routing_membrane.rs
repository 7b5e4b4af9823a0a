//! The membrane: the unit in which the personas leave the node to run on their own.

use crate::node_interface::Interface;
use crate::types::{Id, IdView, NameType};
use vstd::prelude::*;

verus! {

/// The personas of a node together with a copy of the node's identity. A membrane owns
/// both: nothing in it is shared with the node that made it.
pub struct RoutingMembrane<F: Interface> {
    personas: F,
    id: Id,
}

impl<F: Interface> RoutingMembrane<F> {
    /// The personas that the membrane runs.
    pub closed spec fn personas(&self) -> F {
        self.personas
    }

    /// The identity that the membrane acts under.
    pub closed spec fn id(&self) -> IdView {
        self.id@
    }

    /// The membrane that runs `personas` under the identity `id`.
    pub fn new(personas: F, id: Id) -> (membrane: RoutingMembrane<F>)
        ensures
            membrane.personas() == personas,
            membrane.id() == id@,
    {
        RoutingMembrane { personas, id }
    }

    /// The name that the membrane acts under.
    pub fn own_name(&self) -> (name: NameType)
        ensures
            name@ == self.id().name,
    {
        self.id.get_name()
    }

    /// Takes the membrane apart into its personas and its identity.
    pub fn into_parts(self) -> (parts: (F, Id))
        ensures
            parts.0 == self.personas(),
            parts.1@ == self.id(),
    {
        (self.personas, self.id)
    }
}

} // verus!
