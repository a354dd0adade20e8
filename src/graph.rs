//! The graph model: graph nodes merged by display identity, and the links between ports.
use vstd::prelude::*;
use crate::id::{name_hash, Id};
use crate::layout::{
    is_acyclic, is_dep_edge, lemma_self_links_leave_dependencies, respects_edges, topological_order,
};
use crate::link::Link;
use crate::messages::{MediaType, PipewireMessage};
use crate::node::{is_new_member, node_port_added, node_port_removed, with_ports, GraphError, Node, Port, PwNode};

verus! {

/// No two nodes of `s` share a key.
pub open spec fn keys_unique(s: Seq<Node>) -> bool {
    forall|i: int, j: int|
        0 <= i < s.len() && 0 <= j < s.len() && i != j ==> #[trigger] s[i].key() != #[trigger] s[j].key()
}

pub open spec fn has_key(s: Seq<Node>, k: Id) -> bool {
    exists|i: int| 0 <= i < s.len() && #[trigger] s[i].key() == k
}

pub open spec fn key_index(s: Seq<Node>, k: Id) -> int {
    choose|i: int| 0 <= i < s.len() && #[trigger] s[i].key() == k
}

/// Every node of `a` other than the one keyed `k` is in `b`, and `b` has no other node.
pub open spec fn nodes_frame(a: Seq<Node>, b: Seq<Node>, k: Id) -> bool {
    forall|k2: Id|
        k2 != k ==> (#[trigger] has_key(b, k2) == has_key(a, k2)) && (has_key(a, k2) ==> b[key_index(
            b,
            k2,
        )] == a[key_index(a, k2)])
}

/// No two links of `s` share an id.
pub open spec fn link_ids_unique(s: Seq<Link>) -> bool {
    forall|i: int, j: int|
        0 <= i < s.len() && 0 <= j < s.len() && i != j ==> #[trigger] s[i].id != #[trigger] s[j].id
}

pub open spec fn has_link_id(s: Seq<Link>, id: u32) -> bool {
    exists|i: int| 0 <= i < s.len() && #[trigger] s[i].id == id
}

pub open spec fn link_index(s: Seq<Link>, id: u32) -> int {
    choose|i: int| 0 <= i < s.len() && #[trigger] s[i].id == id
}

/// Every link of `a` other than link `id` is in `b`, and `b` has no other link.
pub open spec fn links_frame(a: Seq<Link>, b: Seq<Link>, id: u32) -> bool {
    forall|id2: u32|
        id2 != id ==> (#[trigger] has_link_id(b, id2) == has_link_id(a, id2)) && (has_link_id(a, id2)
            ==> b[link_index(b, id2)] == a[link_index(a, id2)])
}

proof fn lemma_key_index(s: Seq<Node>, i: int)
    requires
        keys_unique(s),
        0 <= i < s.len(),
    ensures
        has_key(s, s[i].key()),
        key_index(s, s[i].key()) == i,
{
    let k = s[i].key();
    assert(has_key(s, k));
    let j = key_index(s, k);
    assert(s[j].key() == k);
}

proof fn lemma_nodes_update(a: Seq<Node>, i: int, n: Node)
    requires
        keys_unique(a),
        0 <= i < a.len(),
        n.key() == a[i].key(),
    ensures
        keys_unique(a.update(i, n)),
        nodes_frame(a, a.update(i, n), n.key()),
        has_key(a.update(i, n), n.key()),
        key_index(a.update(i, n), n.key()) == i,
{
    let b = a.update(i, n);
    let k = n.key();
    assert(keys_unique(b)) by {
        assert forall|x: int, y: int|
            0 <= x < b.len() && 0 <= y < b.len() && x != y implies #[trigger] b[x].key()
            != #[trigger] b[y].key() by {
            assert(b[x].key() == a[x].key());
            assert(b[y].key() == a[y].key());
        }
    }
    assert forall|k2: Id| k2 != k implies (#[trigger] has_key(b, k2) == has_key(a, k2)) && (has_key(
        a,
        k2,
    ) ==> b[key_index(b, k2)] == a[key_index(a, k2)]) by {
        if has_key(a, k2) {
            let j = key_index(a, k2);
            assert(a[j].key() == k2);
            assert(b[j] == a[j]);
            lemma_key_index(b, j);
        }
        if has_key(b, k2) {
            let j = key_index(b, k2);
            assert(b[j].key() == k2);
            assert(a[j] == b[j]);
        }
    }
    lemma_key_index(b, i);
}

proof fn lemma_nodes_remove(a: Seq<Node>, i: int)
    requires
        keys_unique(a),
        0 <= i < a.len(),
    ensures
        keys_unique(a.remove(i)),
        nodes_frame(a, a.remove(i), a[i].key()),
        !has_key(a.remove(i), a[i].key()),
{
    let b = a.remove(i);
    let k = a[i].key();
    assert(keys_unique(b)) by {
        assert forall|x: int, y: int|
            0 <= x < b.len() && 0 <= y < b.len() && x != y implies #[trigger] b[x].key()
            != #[trigger] b[y].key() by {
            let ox = if x < i { x } else { x + 1 };
            let oy = if y < i { y } else { y + 1 };
            assert(b[x] == a[ox]);
            assert(b[y] == a[oy]);
        }
    }
    assert(!has_key(b, k)) by {
        if has_key(b, k) {
            let j = key_index(b, k);
            let oj = if j < i { j } else { j + 1 };
            assert(b[j] == a[oj]);
        }
    }
    assert forall|k2: Id| k2 != k implies (#[trigger] has_key(b, k2) == has_key(a, k2)) && (has_key(
        a,
        k2,
    ) ==> b[key_index(b, k2)] == a[key_index(a, k2)]) by {
        if has_key(a, k2) {
            let j = key_index(a, k2);
            assert(a[j].key() == k2);
            assert(j != i);
            let nj = if j < i { j } else { j - 1 };
            assert(b[nj] == a[j]);
            lemma_key_index(b, nj);
        }
        if has_key(b, k2) {
            let j = key_index(b, k2);
            let oj = if j < i { j } else { j + 1 };
            assert(b[j] == a[oj]);
            assert(a[oj].key() == k2);
        }
    }
}

proof fn lemma_nodes_push(a: Seq<Node>, n: Node)
    requires
        keys_unique(a),
        !has_key(a, n.key()),
    ensures
        keys_unique(a.push(n)),
        nodes_frame(a, a.push(n), n.key()),
        has_key(a.push(n), n.key()),
        key_index(a.push(n), n.key()) == a.len(),
{
    let b = a.push(n);
    let k = n.key();
    assert(keys_unique(b)) by {
        assert forall|x: int, y: int|
            0 <= x < b.len() && 0 <= y < b.len() && x != y implies #[trigger] b[x].key()
            != #[trigger] b[y].key() by {
            if x < a.len() && y < a.len() {
                assert(b[x] == a[x]);
                assert(b[y] == a[y]);
            } else if x < a.len() {
                assert(b[x] == a[x]);
                assert(a[x].key() != k);
            } else if y < a.len() {
                assert(b[y] == a[y]);
                assert(a[y].key() != k);
            }
        }
    }
    assert forall|k2: Id| k2 != k implies (#[trigger] has_key(b, k2) == has_key(a, k2)) && (has_key(
        a,
        k2,
    ) ==> b[key_index(b, k2)] == a[key_index(a, k2)]) by {
        if has_key(a, k2) {
            let j = key_index(a, k2);
            assert(a[j].key() == k2);
            assert(b[j] == a[j]);
            lemma_key_index(b, j);
        }
        if has_key(b, k2) {
            let j = key_index(b, k2);
            assert(b[j].key() == k2);
            assert(j < a.len());
            assert(a[j] == b[j]);
        }
    }
    lemma_key_index(b, a.len() as int);
}

proof fn lemma_link_index(s: Seq<Link>, i: int)
    requires
        link_ids_unique(s),
        0 <= i < s.len(),
    ensures
        has_link_id(s, s[i].id),
        link_index(s, s[i].id) == i,
{
    let id = s[i].id;
    assert(has_link_id(s, id));
    let j = link_index(s, id);
    assert(s[j].id == id);
}

proof fn lemma_links_update(a: Seq<Link>, i: int, l: Link)
    requires
        link_ids_unique(a),
        0 <= i < a.len(),
        l.id == a[i].id,
    ensures
        link_ids_unique(a.update(i, l)),
        links_frame(a, a.update(i, l), l.id),
        has_link_id(a.update(i, l), l.id),
        link_index(a.update(i, l), l.id) == i,
{
    let b = a.update(i, l);
    assert(link_ids_unique(b)) by {
        assert forall|x: int, y: int|
            0 <= x < b.len() && 0 <= y < b.len() && x != y implies #[trigger] b[x].id
            != #[trigger] b[y].id by {
            assert(b[x].id == a[x].id);
            assert(b[y].id == a[y].id);
        }
    }
    assert forall|id2: u32| id2 != l.id implies (#[trigger] has_link_id(b, id2) == has_link_id(
        a,
        id2,
    )) && (has_link_id(a, id2) ==> b[link_index(b, id2)] == a[link_index(a, id2)]) by {
        if has_link_id(a, id2) {
            let j = link_index(a, id2);
            assert(a[j].id == id2);
            assert(b[j] == a[j]);
            lemma_link_index(b, j);
        }
        if has_link_id(b, id2) {
            let j = link_index(b, id2);
            assert(b[j].id == id2);
            assert(a[j] == b[j]);
        }
    }
    lemma_link_index(b, i);
}

proof fn lemma_links_remove(a: Seq<Link>, i: int)
    requires
        link_ids_unique(a),
        0 <= i < a.len(),
    ensures
        link_ids_unique(a.remove(i)),
        links_frame(a, a.remove(i), a[i].id),
        !has_link_id(a.remove(i), a[i].id),
{
    let b = a.remove(i);
    let id = a[i].id;
    assert(link_ids_unique(b)) by {
        assert forall|x: int, y: int|
            0 <= x < b.len() && 0 <= y < b.len() && x != y implies #[trigger] b[x].id
            != #[trigger] b[y].id by {
            let ox = if x < i { x } else { x + 1 };
            let oy = if y < i { y } else { y + 1 };
            assert(b[x] == a[ox]);
            assert(b[y] == a[oy]);
        }
    }
    assert(!has_link_id(b, id)) by {
        if has_link_id(b, id) {
            let j = link_index(b, id);
            let oj = if j < i { j } else { j + 1 };
            assert(b[j] == a[oj]);
        }
    }
    assert forall|id2: u32| id2 != id implies (#[trigger] has_link_id(b, id2) == has_link_id(
        a,
        id2,
    )) && (has_link_id(a, id2) ==> b[link_index(b, id2)] == a[link_index(a, id2)]) by {
        if has_link_id(a, id2) {
            let j = link_index(a, id2);
            assert(a[j].id == id2);
            assert(j != i);
            let nj = if j < i { j } else { j - 1 };
            assert(b[nj] == a[j]);
            lemma_link_index(b, nj);
        }
        if has_link_id(b, id2) {
            let j = link_index(b, id2);
            let oj = if j < i { j } else { j + 1 };
            assert(b[j] == a[oj]);
            assert(a[oj].id == id2);
        }
    }
}

proof fn lemma_links_push(a: Seq<Link>, l: Link)
    requires
        link_ids_unique(a),
        !has_link_id(a, l.id),
    ensures
        link_ids_unique(a.push(l)),
        links_frame(a, a.push(l), l.id),
        has_link_id(a.push(l), l.id),
        link_index(a.push(l), l.id) == a.len(),
{
    let b = a.push(l);
    assert(link_ids_unique(b)) by {
        assert forall|x: int, y: int|
            0 <= x < b.len() && 0 <= y < b.len() && x != y implies #[trigger] b[x].id
            != #[trigger] b[y].id by {
            if x < a.len() && y < a.len() {
                assert(b[x] == a[x]);
                assert(b[y] == a[y]);
            } else if x < a.len() {
                assert(b[x] == a[x]);
                assert(a[x].id != l.id);
            } else if y < a.len() {
                assert(b[y] == a[y]);
                assert(a[y].id != l.id);
            }
        }
    }
    assert forall|id2: u32| id2 != l.id implies (#[trigger] has_link_id(b, id2) == has_link_id(
        a,
        id2,
    )) && (has_link_id(a, id2) ==> b[link_index(b, id2)] == a[link_index(a, id2)]) by {
        if has_link_id(a, id2) {
            let j = link_index(a, id2);
            assert(a[j].id == id2);
            assert(b[j] == a[j]);
            lemma_link_index(b, j);
        }
        if has_link_id(b, id2) {
            let j = link_index(b, id2);
            assert(b[j].id == id2);
            assert(j < a.len());
            assert(a[j] == b[j]);
        }
    }
    lemma_link_index(b, a.len() as int);
}

/// The display identity of a node name.
pub open spec fn name_key(name: Seq<char>) -> Id {
    Id(name_hash(name))
}

/// The UI-side mirror of the server graph.
pub struct Graph {
    nodes: Vec<Node>,
    links: Vec<Link>,
}

impl Graph {
    /// Graph nodes, in the order their identities first appeared.
    pub closed spec fn node_seq(&self) -> Seq<Node> {
        self.nodes@
    }

    /// Links, in the order they were first added.
    pub closed spec fn link_seq(&self) -> Seq<Link> {
        self.links@
    }

    pub open spec fn has_node(&self, k: Id) -> bool {
        has_key(self.node_seq(), k)
    }

    pub open spec fn node(&self, k: Id) -> Node {
        self.node_seq()[key_index(self.node_seq(), k)]
    }

    pub open spec fn has_link(&self, id: u32) -> bool {
        has_link_id(self.link_seq(), id)
    }

    pub open spec fn link(&self, id: u32) -> Link {
        self.link_seq()[link_index(self.link_seq(), id)]
    }

    /// Some member of some graph node has port `port_id`.
    pub open spec fn has_port(&self, port_id: u32) -> bool {
        exists|i: int| 0 <= i < self.node_seq().len() && #[trigger] self.node_seq()[i].has_port(port_id)
    }

    /// The server node ids merged under identity `k`.
    pub open spec fn member_ids(&self, k: Id) -> Set<u32> {
        if self.has_node(k) {
            self.node(k).member_ids()
        } else {
            Set::empty()
        }
    }

    /// The identities of the graph nodes, in node order.
    pub open spec fn node_keys(&self) -> Seq<Id> {
        self.node_seq().map_values(|n: Node| n.key())
    }

    /// The layout dependency from graph node `a` to graph node `b`.
    pub open spec fn depends(&self, a: Id, b: Id) -> bool {
        is_dep_edge(self.node_keys(), self.link_seq(), a, b)
    }

    pub open spec fn dependencies_acyclic(&self) -> bool {
        is_acyclic(self.node_keys(), self.link_seq())
    }

    /// Identities and link ids are unique, and every graph node has a member.
    pub open spec fn wf(&self) -> bool {
        &&& keys_unique(self.node_seq())
        &&& link_ids_unique(self.link_seq())
        &&& forall|i: int| 0 <= i < self.node_seq().len() ==> #[trigger] self.node_seq()[i].members().len() > 0
    }
}

/// `b` is `a` after server node `id` was merged under the identity of `name`.
pub open spec fn node_added(
    a: Graph,
    b: Graph,
    name: Seq<char>,
    id: u32,
    description: Option<String>,
    media_type: Option<MediaType>,
) -> bool {
    let k = name_key(name);
    &&& b.link_seq() == a.link_seq()
    &&& nodes_frame(a.node_seq(), b.node_seq(), k)
    &&& b.has_node(k)
    &&& b.node(k).label() == (if a.has_node(k) { a.node(k).label() } else { name })
    &&& b.node(k).members().len() > 0
    &&& b.node(k).members().drop_last() == (if a.has_node(k) {
        a.node(k).members()
    } else {
        Seq::<PwNode>::empty()
    })
    &&& is_new_member(b.node(k).members().last(), id, description, media_type)
}

/// `b` is `a` after server node `id` left the graph node of `name`; the graph node goes
/// when no member is left.
pub open spec fn node_removed(a: Graph, b: Graph, name: Seq<char>, id: u32) -> bool {
    let k = name_key(name);
    let rest = a.node(k).members().filter(|m: PwNode| m.id != id);
    &&& b.link_seq() == a.link_seq()
    &&& nodes_frame(a.node_seq(), b.node_seq(), k)
    &&& b.has_node(k) == (rest.len() > 0)
    &&& b.has_node(k) ==> b.node(k).label() == a.node(k).label() && b.node(k).members() == rest
}

/// `b` is `a` after `port` was added to member `node_id` of the graph node of `name`.
#[verifier::opaque]
pub open spec fn port_added(a: Graph, b: Graph, name: Seq<char>, node_id: u32, port: Port) -> bool {
    let k = name_key(name);
    &&& b.link_seq() == a.link_seq()
    &&& nodes_frame(a.node_seq(), b.node_seq(), k)
    &&& b.has_node(k)
    &&& node_port_added(a.node(k), b.node(k), node_id, port)
}

/// `b` is `a` after port `port_id` was removed from member `node_id` of the graph node of `name`.
#[verifier::opaque]
pub open spec fn port_removed(a: Graph, b: Graph, name: Seq<char>, node_id: u32, port_id: u32) -> bool {
    let k = name_key(name);
    &&& b.link_seq() == a.link_seq()
    &&& nodes_frame(a.node_seq(), b.node_seq(), k)
    &&& b.has_node(k)
    &&& node_port_removed(a.node(k), b.node(k), node_id, port_id)
}

/// `b` is `a` with link `l` stored under its id.
pub open spec fn link_stored(a: Graph, b: Graph, l: Link) -> bool {
    &&& b.node_seq() == a.node_seq()
    &&& links_frame(a.link_seq(), b.link_seq(), l.id)
    &&& b.has_link(l.id)
    &&& b.link(l.id) == l
}

/// `b` is `a` without link `id`.
pub open spec fn link_dropped(a: Graph, b: Graph, id: u32) -> bool {
    &&& b.node_seq() == a.node_seq()
    &&& links_frame(a.link_seq(), b.link_seq(), id)
    &&& !b.has_link(id)
}

/// Replacing graph node `i` by a node with the same key and a member keeps the graph
/// well formed and changes no other graph node.
proof fn lemma_node_replaced(a: Graph, b: Graph, i: int, n: Node)
    requires
        a.wf(),
        0 <= i < a.node_seq().len(),
        n.key() == a.node_seq()[i].key(),
        n.members().len() > 0,
        b.node_seq() == a.node_seq().update(i, n),
        b.link_seq() == a.link_seq(),
    ensures
        b.wf(),
        nodes_frame(a.node_seq(), b.node_seq(), n.key()),
        a.has_node(n.key()),
        a.node(n.key()) == a.node_seq()[i],
        b.has_node(n.key()),
        b.node(n.key()) == n,
{
    lemma_key_index(a.node_seq(), i);
    lemma_nodes_update(a.node_seq(), i, n);
    let s = b.node_seq();
    let o = a.node_seq();
    assert forall|j: int| 0 <= j < s.len() implies #[trigger] s[j].members().len() > 0 by {
        if j != i {
            assert(s[j] == o[j]);
            assert(o[j].members().len() > 0);
        }
    }
}

/// In a well-formed graph an identity is present exactly when some server node is merged
/// under it.
pub proof fn lemma_node_present_iff_member(g: Graph, k: Id)
    requires
        g.wf(),
    ensures
        g.has_node(k) <==> exists|id: u32| #[trigger] g.member_ids(k).contains(id),
{
    if g.has_node(k) {
        let i = key_index(g.node_seq(), k);
        let n = g.node_seq()[i];
        assert(n.members().len() > 0);
        let id = n.members()[0].id;
        assert(n.has_member(id));
        assert(g.member_ids(k).contains(id));
    }
}

/// Merging server node `id` under a name adds `id` to the members of that name's
/// identity and leaves every other identity's members as they were.
pub proof fn lemma_add_node_members(
    a: Graph,
    b: Graph,
    name: Seq<char>,
    id: u32,
    description: Option<String>,
    media_type: Option<MediaType>,
)
    requires
        node_added(a, b, name, id, description, media_type),
    ensures
        b.has_node(name_key(name)),
        b.member_ids(name_key(name)) == a.member_ids(name_key(name)).insert(id),
        forall|k2: Id| k2 != name_key(name) ==> #[trigger] b.member_ids(k2) == a.member_ids(k2),
{
    let k = name_key(name);
    let bm = b.node(k).members();
    let am = if a.has_node(k) { a.node(k).members() } else { Seq::<PwNode>::empty() };
    assert(bm.drop_last() == am);
    assert forall|x: u32| b.member_ids(k).contains(x) <==> a.member_ids(k).insert(id).contains(x) by {
        if b.node(k).has_member(x) {
            let j = choose|j: int| 0 <= j < bm.len() && #[trigger] bm[j].id == x;
            if j < bm.len() - 1 {
                assert(am[j] == bm[j]);
                assert(a.has_node(k));
                assert(a.node(k).has_member(x));
            }
        }
        if x == id {
            assert(bm[bm.len() - 1].id == id);
            assert(b.node(k).has_member(x));
        } else if a.member_ids(k).contains(x) {
            assert(a.has_node(k));
            let j = choose|j: int| 0 <= j < am.len() && #[trigger] am[j].id == x;
            assert(bm[j] == am[j]);
            assert(b.node(k).has_member(x));
        }
    }
    assert(b.member_ids(k) =~= a.member_ids(k).insert(id));
}

/// Taking server node `id` out of a name's identity removes `id` from its members and
/// leaves every other identity's members as they were.
pub proof fn lemma_remove_node_members(a: Graph, b: Graph, name: Seq<char>, id: u32)
    requires
        a.has_node(name_key(name)),
        node_removed(a, b, name, id),
    ensures
        b.member_ids(name_key(name)) == a.member_ids(name_key(name)).remove(id),
        forall|k2: Id| k2 != name_key(name) ==> #[trigger] b.member_ids(k2) == a.member_ids(k2),
{
    let k = name_key(name);
    let keep = |m: PwNode| m.id != id;
    let am = a.node(k).members();
    let rest = am.filter(keep);
    assert forall|x: u32| b.member_ids(k).contains(x) <==> a.member_ids(k).remove(id).contains(x) by {
        if b.member_ids(k).contains(x) {
            assert(b.has_node(k));
            let bm = b.node(k).members();
            assert(bm == rest);
            let j = choose|j: int| 0 <= j < bm.len() && #[trigger] bm[j].id == x;
            am.lemma_filter_pred(keep, j);
            assert(rest.contains(rest[j]));
            am.lemma_filter_contains_rev(keep, rest[j]);
            let q = choose|q: int| 0 <= q < am.len() && am[q] == rest[j];
            assert(am[q].id == x);
            assert(a.node(k).has_member(x));
        }
        if a.member_ids(k).remove(id).contains(x) {
            let q = choose|q: int| 0 <= q < am.len() && #[trigger] am[q].id == x;
            am.lemma_filter_contains(keep, q);
            let j = choose|j: int| 0 <= j < rest.len() && rest[j] == am[q];
            assert(rest.len() > 0);
            assert(b.has_node(k));
            assert(b.node(k).members()[j].id == x);
            assert(b.node(k).has_member(x));
        }
    }
    assert(b.member_ids(k) =~= a.member_ids(k).remove(id));
}

/// Removing a port changes no other graph node, and within its own graph node no
/// member other than the one that held the port.
pub proof fn lemma_port_removal_is_local(a: Graph, b: Graph, name: Seq<char>, node_id: u32, port_id: u32)
    requires
        port_removed(a, b, name, node_id, port_id),
    ensures
        b.link_seq() == a.link_seq(),
        forall|k2: Id|
            k2 != name_key(name) ==> (#[trigger] b.has_node(k2) == a.has_node(k2)) && (a.has_node(k2)
                ==> b.node(k2) == a.node(k2)),
        b.has_node(name_key(name)),
        b.node(name_key(name)).members().len() == a.node(name_key(name)).members().len(),
        forall|j: int|
            0 <= j < a.node(name_key(name)).members().len() && j != a.node(name_key(name)).first_member(node_id)
                ==> #[trigger] b.node(name_key(name)).members()[j] == a.node(name_key(name)).members()[j],
        with_ports(
            a.node(name_key(name)).members()[a.node(name_key(name)).first_member(node_id)],
            b.node(name_key(name)).members()[a.node(name_key(name)).first_member(node_id)],
            a.node(name_key(name)).members()[a.node(name_key(name)).first_member(node_id)].ports@.remove(port_id),
        ),
{
    reveal(port_removed);
    reveal(node_port_removed);
    assert forall|k2: Id| k2 != name_key(name) implies (#[trigger] b.has_node(k2) == a.has_node(k2))
        && (a.has_node(k2) ==> b.node(k2) == a.node(k2)) by {
        assert(has_key(b.node_seq(), k2) == has_key(a.node_seq(), k2));
    }
}

impl Graph {
    pub fn new() -> (r: Graph)
        ensures
            r.wf(),
            r.node_seq() == Seq::<Node>::empty(),
            r.link_seq() == Seq::<Link>::empty(),
    {
        Graph { nodes: Vec::new(), links: Vec::new() }
    }

    /// Graph nodes, in the order their identities first appeared.
    pub fn nodes(&self) -> (r: &Vec<Node>)
        ensures
            r@ == self.node_seq(),
    {
        &self.nodes
    }

    /// Links, in the order they were first added.
    pub fn links(&self) -> (r: &Vec<Link>)
        ensures
            r@ == self.link_seq(),
    {
        &self.links
    }

    fn find_node(&self, k: Id) -> (r: Option<usize>)
        requires
            self.wf(),
        ensures
            match r {
                Some(i) => self.has_node(k) && i == key_index(self.node_seq(), k) && i
                    < self.node_seq().len() && self.node_seq()[i as int].key() == k,
                None => !self.has_node(k),
            },
    {
        let mut i: usize = 0;
        while i < self.nodes.len()
            invariant
                self.wf(),
                i <= self.nodes@.len(),
                forall|t: int| 0 <= t < i ==> #[trigger] self.nodes@[t].key() != k,
            decreases self.nodes@.len() - i,
        {
            if self.nodes[i].id() == k {
                proof {
                    lemma_key_index(self.nodes@, i as int);
                }
                return Some(i);
            }
            i = i + 1;
        }
        None
    }

    fn find_link(&self, id: u32) -> (r: Option<usize>)
        requires
            self.wf(),
        ensures
            match r {
                Some(i) => self.has_link(id) && i == link_index(self.link_seq(), id) && i
                    < self.link_seq().len() && self.link_seq()[i as int].id == id,
                None => !self.has_link(id),
            },
    {
        let mut i: usize = 0;
        while i < self.links.len()
            invariant
                self.wf(),
                i <= self.links@.len(),
                forall|t: int| 0 <= t < i ==> #[trigger] self.links@[t].id != id,
            decreases self.links@.len() - i,
        {
            if self.links[i].id == id {
                proof {
                    lemma_link_index(self.links@, i as int);
                }
                return Some(i);
            }
            i = i + 1;
        }
        None
    }

    /// Merges server node `id` into the graph node of `name`, creating it if needed.
    pub fn add_node(
        &mut self,
        name: String,
        id: u32,
        description: Option<String>,
        media_type: Option<MediaType>,
    )
        requires
            old(self).wf(),
        ensures
            final(self).wf(),
            node_added(*old(self), *final(self), name@, id, description, media_type),
    {
        let key = Id::new(name.as_str());
        match self.find_node(key) {
            Some(i) => {
                let mut node = self.nodes.remove(i);
                node.add_pw_node(id, description, media_type);
                let ghost gn = node;
                self.nodes.insert(i, node);
                proof {
                    assert(self.nodes@ =~= old(self).nodes@.update(i as int, gn));
                    lemma_nodes_update(old(self).nodes@, i as int, gn);
                }
            },
            None => {
                let mut node = Node::new(key, name);
                node.add_pw_node(id, description, media_type);
                let ghost gn = node;
                self.nodes.push(node);
                proof {
                    lemma_nodes_push(old(self).nodes@, gn);
                }
            },
        }
        proof {
            let s = self.nodes@;
            assert forall|j: int| 0 <= j < s.len() implies #[trigger] s[j].members().len() > 0 by {
                if j < old(self).nodes@.len() && s[j] == old(self).nodes@[j] {
                    assert(old(self).node_seq()[j].members().len() > 0);
                }
            }
        }
    }

    /// Takes server node `id` out of the graph node of `name`, and the graph node itself
    /// once it has no member left.
    pub fn remove_node(&mut self, name: &str, id: u32) -> (r: Result<(), GraphError>)
        requires
            old(self).wf(),
        ensures
            final(self).wf(),
            old(self).has_node(name_key(name@)) ==> r is Ok && node_removed(
                *old(self),
                *final(self),
                name@,
                id,
            ),
            !old(self).has_node(name_key(name@)) ==> r == Err::<(), GraphError>(
                GraphError::UnknownNode(name_key(name@)),
            ) && *final(self) == *old(self),
    {
        let key = Id::new(name);
        match self.find_node(key) {
            None => Err(GraphError::UnknownNode(key)),
            Some(i) => {
                let mut node = self.nodes.remove(i);
                let empty = node.remove_pw_node(id);
                if !empty {
                    let ghost gn = node;
                    self.nodes.insert(i, node);
                    proof {
                        assert(self.nodes@ =~= old(self).nodes@.update(i as int, gn));
                        lemma_nodes_update(old(self).nodes@, i as int, gn);
                    }
                } else {
                    proof {
                        lemma_nodes_remove(old(self).nodes@, i as int);
                    }
                }
                proof {
                    let s = self.nodes@;
                    let o = old(self).nodes@;
                    assert forall|j: int| 0 <= j < s.len() implies #[trigger] s[j].members().len() > 0 by {
                        if !empty && j == i {
                        } else if !empty || j < i {
                            assert(s[j] == o[j]);
                            assert(o[j].members().len() > 0);
                        } else {
                            assert(s[j] == o[j + 1]);
                            assert(o[j + 1].members().len() > 0);
                        }
                    }
                }
                Ok(())
            },
        }
    }

    /// Adds `port` to member `node_id` of the graph node of `node_name`.
    #[verifier::rlimit(80)]
    pub fn add_port(&mut self, node_name: String, node_id: u32, port: Port) -> (r: Result<(), GraphError>)
        requires
            old(self).wf(),
        ensures
            final(self).wf(),
            !old(self).has_node(name_key(node_name@)) ==> r == Err::<(), GraphError>(
                GraphError::UnknownNode(name_key(node_name@)),
            ) && *final(self) == *old(self),
            old(self).has_node(name_key(node_name@)) && !old(self).node(
                name_key(node_name@),
            ).has_member(node_id) ==> r == Err::<(), GraphError>(GraphError::UnknownMember(node_id))
                && *final(self) == *old(self),
            old(self).has_node(name_key(node_name@)) && old(self).node(
                name_key(node_name@),
            ).has_member(node_id) ==> r is Ok && port_added(
                *old(self),
                *final(self),
                node_name@,
                node_id,
                port,
            ),
    {
        let key = Id::new(node_name.as_str());
        match self.find_node(key) {
            None => Err(GraphError::UnknownNode(key)),
            Some(i) => {
                match self.nodes[i].find_pw_node(node_id) {
                    None => {
                        return Err(GraphError::UnknownMember(node_id));
                    },
                    Some(_) => {},
                }
                let mut node = self.nodes.remove(i);
                let _ = node.add_port(node_id, port);
                let ghost gn = node;
                self.nodes.insert(i, node);
                proof {
                    assert(self.nodes@ =~= old(self).nodes@.update(i as int, gn));
                    assert(old(self).node_seq()[i as int].members().len() > 0);
                    lemma_node_replaced(*old(self), *self, i as int, gn);
                    reveal(port_added);
                }
                Ok(())
            },
        }
    }

    /// Removes port `port_id` from member `node_id` of the graph node of `node_name`.
    #[verifier::rlimit(80)]
    pub fn remove_port(&mut self, node_name: &str, node_id: u32, port_id: u32) -> (r: Result<(), GraphError>)
        requires
            old(self).wf(),
        ensures
            final(self).wf(),
            !old(self).has_node(name_key(node_name@)) ==> r == Err::<(), GraphError>(
                GraphError::UnknownNode(name_key(node_name@)),
            ) && *final(self) == *old(self),
            old(self).has_node(name_key(node_name@)) && !old(self).node(
                name_key(node_name@),
            ).has_member(node_id) ==> r == Err::<(), GraphError>(GraphError::UnknownMember(node_id))
                && *final(self) == *old(self),
            old(self).has_node(name_key(node_name@)) && old(self).node(
                name_key(node_name@),
            ).has_member(node_id) ==> r is Ok && port_removed(
                *old(self),
                *final(self),
                node_name@,
                node_id,
                port_id,
            ),
    {
        let key = Id::new(node_name);
        match self.find_node(key) {
            None => Err(GraphError::UnknownNode(key)),
            Some(i) => {
                match self.nodes[i].find_pw_node(node_id) {
                    None => {
                        return Err(GraphError::UnknownMember(node_id));
                    },
                    Some(_) => {},
                }
                let mut node = self.nodes.remove(i);
                let _ = node.remove_port(node_id, port_id);
                let ghost gn = node;
                self.nodes.insert(i, node);
                proof {
                    assert(self.nodes@ =~= old(self).nodes@.update(i as int, gn));
                    assert(old(self).node_seq()[i as int].members().len() > 0);
                    lemma_node_replaced(*old(self), *self, i as int, gn);
                    reveal(port_removed);
                }
                Ok(())
            },
        }
    }

    /// Whether some member of some graph node has port `port_id`.
    pub fn contains_port(&self, port_id: u32) -> (r: bool)
        ensures
            r == self.has_port(port_id),
    {
        let mut i: usize = 0;
        while i < self.nodes.len()
            invariant
                i <= self.nodes@.len(),
                forall|t: int| 0 <= t < i ==> !(#[trigger] self.nodes@[t].has_port(port_id)),
            decreases self.nodes@.len() - i,
        {
            if self.nodes[i].contains_port(port_id) {
                assert(self.node_seq()[i as int].has_port(port_id));
                return true;
            }
            i = i + 1;
        }
        false
    }

    /// Whether a graph node carries identity `k`.
    pub fn contains_node(&self, k: Id) -> (r: bool)
        requires
            self.wf(),
        ensures
            r == self.has_node(k),
    {
        self.find_node(k).is_some()
    }

    /// Stores an active link `id` between the graph nodes of the two names, replacing a
    /// link stored before under the same id. Both names must be registered and both
    /// ports known.
    pub fn add_link(
        &mut self,
        id: u32,
        from_node_name: String,
        to_node_name: String,
        from_port: u32,
        to_port: u32,
    )
        requires
            old(self).wf(),
            old(self).has_node(name_key(from_node_name@)),
            old(self).has_node(name_key(to_node_name@)),
            old(self).has_port(from_port),
            old(self).has_port(to_port),
        ensures
            final(self).wf(),
            link_stored(
                *old(self),
                *final(self),
                Link {
                    id,
                    from_node: name_key(from_node_name@),
                    to_node: name_key(to_node_name@),
                    from_port,
                    to_port,
                    active: true,
                },
            ),
    {
        let from_node = Id::new(from_node_name.as_str());
        let to_node = Id::new(to_node_name.as_str());
        let link = Link { id, from_node, to_node, from_port, to_port, active: true };
        match self.find_link(id) {
            Some(i) => {
                self.links.set(i, link);
                proof {
                    lemma_links_update(old(self).links@, i as int, link);
                }
            },
            None => {
                self.links.push(link);
                proof {
                    lemma_links_push(old(self).links@, link);
                }
            },
        }
    }

    /// Sets the activation flag of link `id`; tells whether the link exists.
    pub fn set_link_active(&mut self, id: u32, active: bool) -> (r: bool)
        requires
            old(self).wf(),
        ensures
            final(self).wf(),
            r == old(self).has_link(id),
            r ==> link_stored(*old(self), *final(self), Link { active, ..old(self).link(id) }),
            !r ==> *final(self) == *old(self),
    {
        match self.find_link(id) {
            Some(i) => {
                let mut link = self.links[i];
                link.active = active;
                self.links.set(i, link);
                proof {
                    lemma_links_update(old(self).links@, i as int, link);
                }
                true
            },
            None => false,
        }
    }

    /// Removes link `id` and hands it back, if it exists.
    pub fn remove_link(&mut self, id: u32) -> (r: Option<Link>)
        requires
            old(self).wf(),
        ensures
            final(self).wf(),
            r == (if old(self).has_link(id) {
                Some(old(self).link(id))
            } else {
                None
            }),
            link_dropped(*old(self), *final(self), id),
            !old(self).has_link(id) ==> *final(self) == *old(self),
    {
        match self.find_link(id) {
            Some(i) => {
                let link = self.links.remove(i);
                proof {
                    lemma_links_remove(old(self).links@, i as int);
                }
                Some(link)
            },
            None => {
                assert(links_frame(self.links@, self.links@, id));
                None
            },
        }
    }

    /// The link stored under `id`, if any.
    pub fn get_link(&self, id: u32) -> (r: Option<&Link>)
        requires
            self.wf(),
        ensures
            r == (if self.has_link(id) {
                Some(&self.link(id))
            } else {
                None
            }),
    {
        match self.find_link(id) {
            Some(i) => Some(&self.links[i]),
            None => None,
        }
    }

    /// Applies one event from the server-facing loop.
    ///
    /// An event that names an unknown graph node, member or port is declined with the
    /// matching error and leaves the graph as it was.
    pub fn process_message(&mut self, message: PipewireMessage) -> (r: Result<(), GraphError>)
        requires
            old(self).wf(),
        ensures
            final(self).wf(),
            match message {
                PipewireMessage::NodeAdded { id, name, description, media_type } => r is Ok
                    && node_added(*old(self), *final(self), name@, id, description, media_type),
                PipewireMessage::NodeRemoved { name, id } => if old(self).has_node(name_key(name@)) {
                    r is Ok && node_removed(*old(self), *final(self), name@, id)
                } else {
                    r == Err::<(), GraphError>(GraphError::UnknownNode(name_key(name@)))
                        && *final(self) == *old(self)
                },
                PipewireMessage::PortAdded { node_name, node_id, id, name, port_type } => {
                    let k = name_key(node_name@);
                    if !old(self).has_node(k) {
                        r == Err::<(), GraphError>(GraphError::UnknownNode(k)) && *final(self)
                            == *old(self)
                    } else if !old(self).node(k).has_member(node_id) {
                        r == Err::<(), GraphError>(GraphError::UnknownMember(node_id))
                            && *final(self) == *old(self)
                    } else {
                        r is Ok && port_added(
                            *old(self),
                            *final(self),
                            node_name@,
                            node_id,
                            (Port { id, name, port_type }),
                        )
                    }
                },
                PipewireMessage::PortRemoved { node_name, node_id, id } => {
                    let k = name_key(node_name@);
                    if !old(self).has_node(k) {
                        r == Err::<(), GraphError>(GraphError::UnknownNode(k)) && *final(self)
                            == *old(self)
                    } else if !old(self).node(k).has_member(node_id) {
                        r == Err::<(), GraphError>(GraphError::UnknownMember(node_id))
                            && *final(self) == *old(self)
                    } else {
                        r is Ok && port_removed(*old(self), *final(self), node_name@, node_id, id)
                    }
                },
                PipewireMessage::LinkAdded { id, from_node_name, to_node_name, from_port, to_port } => {
                    let from = name_key(from_node_name@);
                    let to = name_key(to_node_name@);
                    if !old(self).has_node(from) {
                        r == Err::<(), GraphError>(GraphError::UnknownNode(from)) && *final(self)
                            == *old(self)
                    } else if !old(self).has_node(to) {
                        r == Err::<(), GraphError>(GraphError::UnknownNode(to)) && *final(self)
                            == *old(self)
                    } else if !old(self).has_port(from_port) {
                        r == Err::<(), GraphError>(GraphError::UnknownPort(from_port))
                            && *final(self) == *old(self)
                    } else if !old(self).has_port(to_port) {
                        r == Err::<(), GraphError>(GraphError::UnknownPort(to_port))
                            && *final(self) == *old(self)
                    } else {
                        r is Ok && link_stored(
                            *old(self),
                            *final(self),
                            Link { id, from_node: from, to_node: to, from_port, to_port, active: true },
                        )
                    }
                },
                PipewireMessage::LinkStateChanged { id, active } => r is Ok && (old(self).has_link(id)
                    ==> link_stored(*old(self), *final(self), Link { active, ..old(self).link(id) }))
                    && (!old(self).has_link(id) ==> *final(self) == *old(self)),
                PipewireMessage::LinkRemoved { id } => r is Ok && link_dropped(*old(self), *final(self), id),
            },
    {
        match message {
            PipewireMessage::NodeAdded { id, name, description, media_type } => {
                self.add_node(name, id, description, media_type);
                Ok(())
            },
            PipewireMessage::NodeRemoved { name, id } => self.remove_node(name.as_str(), id),
            PipewireMessage::PortAdded { node_name, node_id, id, name, port_type } => {
                self.add_port(node_name, node_id, Port::new(id, name, port_type))
            },
            PipewireMessage::PortRemoved { node_name, node_id, id } => {
                self.remove_port(node_name.as_str(), node_id, id)
            },
            PipewireMessage::LinkAdded { id, from_node_name, to_node_name, from_port, to_port } => {
                let from = Id::new(from_node_name.as_str());
                if !self.contains_node(from) {
                    return Err(GraphError::UnknownNode(from));
                }
                let to = Id::new(to_node_name.as_str());
                if !self.contains_node(to) {
                    return Err(GraphError::UnknownNode(to));
                }
                if !self.contains_port(from_port) {
                    return Err(GraphError::UnknownPort(from_port));
                }
                if !self.contains_port(to_port) {
                    return Err(GraphError::UnknownPort(to_port));
                }
                self.add_link(id, from_node_name, to_node_name, from_port, to_port);
                Ok(())
            },
            PipewireMessage::LinkStateChanged { id, active } => {
                let _ = self.set_link_active(id, active);
                Ok(())
            },
            PipewireMessage::LinkRemoved { id } => {
                let _ = self.remove_link(id);
                Ok(())
            },
        }
    }

    /// The draw order: every graph node once, and where the dependencies have no cycle,
    /// none of them points backwards.
    pub fn top_sort(&self) -> (r: Vec<Id>)
        requires
            self.wf(),
        ensures
            r@.no_duplicates(),
            r@.len() == self.node_seq().len(),
            forall|k: Id| r@.contains(k) <==> self.has_node(k),
            self.dependencies_acyclic() ==> respects_edges(self.node_keys(), self.link_seq(), r@),
    {
        let mut keys: Vec<Id> = Vec::new();
        let mut i: usize = 0;
        while i < self.nodes.len()
            invariant
                i <= self.nodes@.len(),
                keys@.len() == i,
                forall|j: int| 0 <= j < i ==> #[trigger] keys@[j] == self.nodes@[j].key(),
            decreases self.nodes@.len() - i,
        {
            keys.push(self.nodes[i].id());
            i = i + 1;
        }
        proof {
            assert(keys@ =~= self.node_keys());
            assert(keys@.no_duplicates()) by {
                assert forall|a: int, b: int| 0 <= a < keys@.len() && 0 <= b < keys@.len() && a != b
                    implies keys@[a] != keys@[b] by {
                    assert(self.node_seq()[a].key() != self.node_seq()[b].key());
                }
            }
        }
        let mut deps: Vec<Link> = Vec::new();
        let mut t: usize = 0;
        while t < self.links.len()
            invariant
                t <= self.links@.len(),
                forall|x: int|
                    0 <= x < deps@.len() ==> (#[trigger] deps@[x]).from_node != deps@[x].to_node
                        && self.links@.contains(deps@[x]),
                forall|x: int|
                    0 <= x < t && (#[trigger] self.links@[x]).from_node != self.links@[x].to_node
                        ==> deps@.contains(self.links@[x]),
            decreases self.links@.len() - t,
        {
            let l = self.links[t];
            let ghost before = deps@;
            if !l.is_self_link() {
                deps.push(l);
                proof {
                    assert(deps@[deps@.len() - 1] == l);
                    assert(self.links@.contains(self.links@[t as int]));
                    assert forall|x: int| 0 <= x < before.len() implies deps@[x] == before[x] by {}
                    assert forall|y: Link| before.contains(y) implies deps@.contains(y) by {
                        let x = choose|x: int| 0 <= x < before.len() && before[x] == y;
                        assert(deps@[x] == y);
                    }
                }
            }
            proof {
                assert forall|x: int|
                    0 <= x < t + 1 && (#[trigger] self.links@[x]).from_node != self.links@[x].to_node
                        implies deps@.contains(self.links@[x]) by {
                    if x == t {
                        assert(deps@[deps@.len() - 1] == self.links@[x]);
                    } else {
                        assert(before.contains(self.links@[x]));
                    }
                }
            }
            t = t + 1;
        }
        proof {
            lemma_self_links_leave_dependencies(self.node_keys(), self.link_seq(), deps@);
        }
        let r = topological_order(&keys, &deps);
        proof {
            assert forall|k: Id| r@.contains(k) <==> self.has_node(k) by {
                if self.has_node(k) {
                    let j = key_index(self.node_seq(), k);
                    assert(keys@[j] == k);
                    assert(keys@.contains(k));
                }
                if keys@.contains(k) {
                    let j = choose|j: int| 0 <= j < keys@.len() && keys@[j] == k;
                    assert(self.node_seq()[j].key() == k);
                }
            }
        }
        r
    }
}

} // verus!
