//! Links between ports, as the graph model holds them.
use vstd::prelude::*;
use crate::id::Id;

verus! {

/// A link from an output port of one graph node to an input port of another.
#[derive(Debug, Clone, Copy, PartialEq, Eq, Structural)]
pub struct Link {
    pub id: u32,
    pub from_node: Id,
    pub to_node: Id,
    pub from_port: u32,
    pub to_port: u32,
    pub active: bool,
}

impl Link {
    /// Both ends belong to the same graph node.
    pub fn is_self_link(&self) -> (r: bool)
        ensures
            r == (self.from_node == self.to_node),
    {
        self.from_node == self.to_node
    }
}

} // verus!
