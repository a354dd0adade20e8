//! Graph nodes: a display identity that aggregates the server nodes sharing its name.
use std::collections::HashMap;
use vstd::prelude::*;
use crate::id::Id;
use crate::messages::{MediaType, PortType};

verus! {

broadcast use vstd::std_specs::hash::group_hash_axioms;

/// An input or output terminal of a server node.
#[derive(Debug)]
pub struct Port {
    pub id: u32,
    pub name: String,
    pub port_type: PortType,
}

impl Port {
    pub fn new(id: u32, name: String, port_type: PortType) -> (r: Port)
        ensures
            r == (Port { id, name, port_type }),
    {
        Port { id, name, port_type }
    }

    pub fn id(&self) -> (r: u32)
        ensures
            r == self.id,
    {
        self.id
    }

    pub fn name(&self) -> (r: &str)
        ensures
            r@ == self.name@,
    {
        self.name.as_str()
    }

    pub fn port_type(&self) -> (r: PortType)
        ensures
            r == self.port_type,
    {
        self.port_type
    }
}

/// One server node merged into a graph node, with its own ports.
#[derive(Debug)]
pub struct PwNode {
    pub id: u32,
    pub description: Option<String>,
    pub media_type: Option<MediaType>,
    pub ports: HashMap<u32, Port>,
}

/// Why the graph model declined an event.
#[derive(Debug, Clone, Copy, PartialEq, Eq, Structural)]
pub enum GraphError {
    /// No graph node carries the given display identity.
    UnknownNode(Id),
    /// The graph node has no member with the given server node id.
    UnknownMember(u32),
    /// No member of any graph node has a port with the given id.
    UnknownPort(u32),
}

/// `b` is `a` with its port set replaced by `ports`.
pub open spec fn with_ports(a: PwNode, b: PwNode, ports: Map<u32, Port>) -> bool {
    &&& b.id == a.id
    &&& b.description == a.description
    &&& b.media_type == a.media_type
    &&& b.ports@ == ports
}

/// A fresh member record: the given fields and no ports.
pub open spec fn is_new_member(
    m: PwNode,
    id: u32,
    description: Option<String>,
    media_type: Option<MediaType>,
) -> bool {
    &&& m.id == id
    &&& m.description == description
    &&& m.media_type == media_type
    &&& m.ports@ == Map::<u32, Port>::empty()
}

/// `b` is `a` with `port` put into the port set of `a`'s first member `node_id`.
#[verifier::opaque]
pub open spec fn node_port_added(a: Node, b: Node, node_id: u32, port: Port) -> bool {
    let i = a.first_member(node_id);
    &&& b.key() == a.key()
    &&& b.label() == a.label()
    &&& b.members().len() == a.members().len()
    &&& forall|j: int|
        0 <= j < a.members().len() && j != i ==> #[trigger] b.members()[j] == a.members()[j]
    &&& with_ports(a.members()[i], b.members()[i], a.members()[i].ports@.insert(port.id, port))
}

/// `b` is `a` with port `port_id` taken out of the port set of `a`'s first member `node_id`.
#[verifier::opaque]
pub open spec fn node_port_removed(a: Node, b: Node, node_id: u32, port_id: u32) -> bool {
    let i = a.first_member(node_id);
    &&& b.key() == a.key()
    &&& b.label() == a.label()
    &&& b.members().len() == a.members().len()
    &&& forall|j: int|
        0 <= j < a.members().len() && j != i ==> #[trigger] b.members()[j] == a.members()[j]
    &&& with_ports(a.members()[i], b.members()[i], a.members()[i].ports@.remove(port_id))
}

/// A graph node.
#[derive(Debug)]
pub struct Node {
    id: Id,
    name: String,
    pw_nodes: Vec<PwNode>,
}

impl Node {
    pub closed spec fn key(&self) -> Id {
        self.id
    }

    pub closed spec fn label(&self) -> Seq<char> {
        self.name@
    }

    /// The merged server nodes, in the order they were added.
    pub closed spec fn members(&self) -> Seq<PwNode> {
        self.pw_nodes@
    }

    pub open spec fn has_member(&self, id: u32) -> bool {
        exists|j: int| 0 <= j < self.members().len() && #[trigger] self.members()[j].id == id
    }

    pub open spec fn member_ids(&self) -> Set<u32> {
        Set::new(|id: u32| self.has_member(id))
    }

    /// Position of the first member with server id `id`.
    pub open spec fn first_member(&self, id: u32) -> int {
        choose|j: int|
            0 <= j < self.members().len() && #[trigger] self.members()[j].id == id && forall|t: int|
                0 <= t < j ==> #[trigger] self.members()[t].id != id
    }

    pub open spec fn has_port(&self, port_id: u32) -> bool {
        exists|j: int|
            0 <= j < self.members().len() && #[trigger] self.members()[j].ports@.contains_key(
                port_id,
            )
    }

    pub fn new(id: Id, name: String) -> (r: Node)
        ensures
            r.key() == id,
            r.label() == name@,
            r.members() == Seq::<PwNode>::empty(),
    {
        Node { id, name, pw_nodes: Vec::new() }
    }

    pub fn name(&self) -> (r: &str)
        ensures
            r@ == self.label(),
    {
        self.name.as_str()
    }

    pub fn id(&self) -> (r: Id)
        ensures
            r == self.key(),
    {
        self.id
    }

    /// The merged server nodes, in the order they were added.
    pub fn pw_nodes(&self) -> (r: &Vec<PwNode>)
        ensures
            r@ == self.members(),
    {
        &self.pw_nodes
    }

    /// Merges one more server node into this graph node.
    pub fn add_pw_node(&mut self, id: u32, description: Option<String>, media_type: Option<MediaType>)
        ensures
            final(self).key() == old(self).key(),
            final(self).label() == old(self).label(),
            final(self).members().len() == old(self).members().len() + 1,
            final(self).members().drop_last() == old(self).members(),
            is_new_member(final(self).members().last(), id, description, media_type),
    {
        self.pw_nodes.push(PwNode { id, description, media_type, ports: HashMap::new() });
        assert(self.pw_nodes@.drop_last() =~= old(self).pw_nodes@);
    }

    /// Removes every member with server id `id`; tells whether no member is left.
    pub fn remove_pw_node(&mut self, id: u32) -> (r: bool)
        ensures
            final(self).key() == old(self).key(),
            final(self).label() == old(self).label(),
            final(self).members() == old(self).members().filter(|m: PwNode| m.id != id),
            r == (final(self).members().len() == 0),
    {
        let ghost keep = |m: PwNode| m.id != id;
        let mut rest: Vec<PwNode> = Vec::new();
        std::mem::swap(&mut self.pw_nodes, &mut rest);
        let ghost all = rest@;
        let ghost mut k: int = 0;
        proof {
            reveal(Seq::filter);
            assert(all.take(0) =~= Seq::<PwNode>::empty());
        }
        while rest.len() > 0
            invariant
                0 <= k <= all.len(),
                keep == (|m: PwNode| m.id != id),
                rest@ == all.skip(k),
                self.pw_nodes@ == all.take(k).filter(keep),
                self.id == old(self).id,
                self.name == old(self).name,
            decreases rest.len(),
        {
            let m = rest.remove(0);
            let ghost gm = m;
            let ghost before = self.pw_nodes@;
            proof {
                assert(all.take(k + 1).drop_last() =~= all.take(k));
                assert(all.take(k + 1).last() == m);
                assert(rest@ =~= all.skip(k + 1));
            }
            if m.id != id {
                self.pw_nodes.push(m);
            }
            proof {
                reveal(Seq::filter);
                let next = all.take(k + 1);
                assert(next.len() > 0);
                assert(next.filter(keep) == if keep(gm) {
                    before.push(gm)
                } else {
                    before
                });
                k = k + 1;
            }
        }
        assert(all.take(k) =~= all);
        self.pw_nodes.len() == 0
    }

    /// Position of the first member with server id `id`, if any.
    pub fn find_pw_node(&self, id: u32) -> (r: Option<usize>)
        ensures
            match r {
                Some(j) => self.has_member(id) && j == self.first_member(id) && j
                    < self.members().len() && self.members()[j as int].id == id,
                None => !self.has_member(id),
            },
    {
        let mut j: usize = 0;
        while j < self.pw_nodes.len()
            invariant
                j <= self.pw_nodes@.len(),
                forall|t: int| 0 <= t < j ==> #[trigger] self.pw_nodes@[t].id != id,
            decreases self.pw_nodes@.len() - j,
        {
            if self.pw_nodes[j].id == id {
                proof {
                    let m = self.members();
                    assert(m[j as int].id == id);
                    assert(forall|t: int| 0 <= t < j ==> #[trigger] m[t].id != id);
                    assert(exists|f: int|
                        0 <= f < m.len() && #[trigger] m[f].id == id && forall|t: int|
                            0 <= t < f ==> #[trigger] m[t].id != id);
                    let f = self.first_member(id);
                    assert(0 <= f < m.len() && m[f].id == id);
                    if f < j {
                        assert(m[f].id != id);
                    } else if f > j {
                        assert(m[j as int].id != id);
                    }
                }
                return Some(j);
            }
            j = j + 1;
        }
        None
    }

    /// Adds `port` to the port set of member `node_id` (its first member with that id).
    #[verifier::rlimit(40)]
    pub fn add_port(&mut self, node_id: u32, port: Port) -> (r: Result<(), GraphError>)
        ensures
            final(self).key() == old(self).key(),
            final(self).label() == old(self).label(),
            !old(self).has_member(node_id) ==> r == Err::<(), GraphError>(
                GraphError::UnknownMember(node_id),
            ) && final(self).members() == old(self).members(),
            final(self).members().len() == old(self).members().len(),
            old(self).has_member(node_id) ==> r is Ok && node_port_added(*old(self), *final(self), node_id, port),
    {
        match self.find_pw_node(node_id) {
            None => Err(GraphError::UnknownMember(node_id)),
            Some(i) => {
                let ghost om = self.pw_nodes@[i as int];
                let ghost gp = port;
                let mut m = self.pw_nodes.remove(i);
                m.ports.insert(port.id, port);
                let ghost gm = m;
                self.pw_nodes.insert(i, m);
                proof {
                    assert(self.pw_nodes@ =~= old(self).pw_nodes@.update(i as int, gm));
                    assert(with_ports(om, gm, om.ports@.insert(gp.id, gp)));
                    reveal(node_port_added);
                }
                Ok(())
            },
        }
    }

    /// Removes port `port_id` from member `node_id` (its first member with that id).
    #[verifier::rlimit(40)]
    pub fn remove_port(&mut self, node_id: u32, port_id: u32) -> (r: Result<(), GraphError>)
        ensures
            final(self).key() == old(self).key(),
            final(self).label() == old(self).label(),
            !old(self).has_member(node_id) ==> r == Err::<(), GraphError>(
                GraphError::UnknownMember(node_id),
            ) && final(self).members() == old(self).members(),
            final(self).members().len() == old(self).members().len(),
            old(self).has_member(node_id) ==> r is Ok && node_port_removed(*old(self), *final(self), node_id, port_id),
    {
        match self.find_pw_node(node_id) {
            None => Err(GraphError::UnknownMember(node_id)),
            Some(i) => {
                let mut m = self.pw_nodes.remove(i);
                m.ports.remove(&port_id);
                let ghost gm = m;
                self.pw_nodes.insert(i, m);
                assert(self.pw_nodes@ =~= old(self).pw_nodes@.update(i as int, gm));
                proof {
                    reveal(node_port_removed);
                }
                Ok(())
            },
        }
    }

    /// Whether some member of this node has port `port_id`.
    pub fn contains_port(&self, port_id: u32) -> (r: bool)
        ensures
            r == self.has_port(port_id),
    {
        let mut j: usize = 0;
        while j < self.pw_nodes.len()
            invariant
                j <= self.pw_nodes@.len(),
                forall|t: int| 0 <= t < j ==> !(#[trigger] self.pw_nodes@[t].ports@.contains_key(port_id)),
            decreases self.pw_nodes@.len() - j,
        {
            if self.pw_nodes[j].ports.contains_key(&port_id) {
                assert(self.members()[j as int].ports@.contains_key(port_id));
                return true;
            }
            j = j + 1;
        }
        false
    }
}

} // verus!
