//! The layout engine: a draw order for graph nodes that follows the links, and the
//! zig-zag cascade that places nodes without a stored position.
use vstd::prelude::*;
use crate::id::Id;
use crate::link::Link;

verus! {

/// `a` comes before `b` in the dependency graph: both are listed nodes, they differ,
/// and some link goes from `a` to `b`. Self-links give no edge.
pub open spec fn is_dep_edge(keys: Seq<Id>, links: Seq<Link>, a: Id, b: Id) -> bool {
    &&& a != b
    &&& keys.contains(a)
    &&& keys.contains(b)
    &&& exists|t: int| 0 <= t < links.len() && (#[trigger] links[t]).from_node == a && links[t].to_node == b
}

/// Each consecutive pair of `p` is a dependency edge.
pub open spec fn is_dep_path(keys: Seq<Id>, links: Seq<Link>, p: Seq<Id>) -> bool {
    forall|i: int| 0 <= i < p.len() - 1 ==> is_dep_edge(keys, links, #[trigger] p[i], p[i + 1])
}

/// No dependency path of two or more nodes returns to where it started.
pub open spec fn is_acyclic(keys: Seq<Id>, links: Seq<Link>) -> bool {
    forall|p: Seq<Id>| #[trigger] is_dep_path(keys, links, p) && p.len() >= 2 ==> p[0] != p[p.len() - 1]
}

/// No dependency edge of the listed nodes points from a later position of `order` to
/// an earlier one.
pub open spec fn respects_edges(keys: Seq<Id>, links: Seq<Link>, order: Seq<Id>) -> bool {
    forall|i: int, j: int|
        0 <= i < j < order.len() ==> !is_dep_edge(keys, links, #[trigger] order[j], #[trigger] order[i])
}

spec fn visited(path: Seq<Id>, post: Seq<Id>, x: Id) -> bool {
    path.contains(x) || post.contains(x)
}

/// Link `t` leads from `u` to a listed node other than `u`.
spec fn leads_on(keys: Seq<Id>, links: Seq<Link>, u: Id, t: int) -> bool {
    links[t].from_node == u && links[t].to_node != u && keys.contains(links[t].to_node)
}

/// Every link before `upto` that leads on from `u` reaches a visited node.
spec fn scanned(keys: Seq<Id>, links: Seq<Link>, path: Seq<Id>, post: Seq<Id>, u: Id, upto: int) -> bool {
    forall|t: int|
        0 <= t < upto && #[trigger] leads_on(keys, links, u, t) ==> visited(path, post, links[t].to_node)
}

/// The depth-first search state: `path` is the chain of nodes being explored, each with
/// a cursor into `links`; `post` holds the finished nodes in the order they finished.
spec fn search_state(
    keys: Seq<Id>,
    links: Seq<Link>,
    path: Seq<Id>,
    cursor: Seq<usize>,
    post: Seq<Id>,
) -> bool {
    &&& path.len() == cursor.len()
    &&& path.no_duplicates()
    &&& post.no_duplicates()
    &&& path.disjoint(post)
    &&& forall|j: int| 0 <= j < path.len() ==> keys.contains(#[trigger] path[j])
    &&& forall|j: int| 0 <= j < post.len() ==> keys.contains(#[trigger] post[j])
    &&& forall|j: int| 0 <= j < path.len() - 1 ==> is_dep_edge(keys, links, #[trigger] path[j], path[j + 1])
    &&& forall|j: int|
        0 <= j < path.len() ==> #[trigger] cursor[j] <= links.len() && scanned(
            keys,
            links,
            path,
            post,
            path[j],
            cursor[j] as int,
        )
}

/// Every node that a finished node leads to has finished, and earlier.
spec fn finished_in_order(keys: Seq<Id>, links: Seq<Link>, post: Seq<Id>) -> bool {
    &&& forall|a: Id, b: Id| #[trigger] post.contains(a) && #[trigger] is_dep_edge(keys, links, a, b) ==> post.contains(b)
    &&& forall|ia: int, ib: int|
        0 <= ia < post.len() && 0 <= ib < post.len() && is_dep_edge(keys, links, #[trigger] post[ia], #[trigger] post[ib]) ==> ib < ia
}

proof fn lemma_visit_bound(keys: Seq<Id>, path: Seq<Id>, post: Seq<Id>)
    requires
        keys.no_duplicates(),
        path.no_duplicates(),
        post.no_duplicates(),
        path.disjoint(post),
        forall|j: int| 0 <= j < path.len() ==> keys.contains(#[trigger] path[j]),
        forall|j: int| 0 <= j < post.len() ==> keys.contains(#[trigger] post[j]),
    ensures
        path.len() + post.len() <= keys.len(),
{
    let both = path + post;
    vstd::seq_lib::lemma_no_dup_in_concat(path, post);
    both.unique_seq_to_set();
    keys.unique_seq_to_set();
    assert(both.to_set().subset_of(keys.to_set())) by {
        assert forall|x: Id| both.to_set().contains(x) implies keys.to_set().contains(x) by {
            let j = choose|j: int| 0 <= j < both.len() && both[j] == x;
            if j < path.len() {
                assert(path[j] == x);
            } else {
                assert(post[j - path.len()] == x);
            }
        }
    }
    vstd::set_lib::lemma_len_subset(both.to_set(), keys.to_set());
}

fn contains_id(v: &Vec<Id>, k: Id) -> (r: bool)
    ensures
        r == v@.contains(k),
{
    let mut i: usize = 0;
    while i < v.len()
        invariant
            i <= v@.len(),
            forall|t: int| 0 <= t < i ==> #[trigger] v@[t] != k,
        decreases v@.len() - i,
    {
        if v[i] == k {
            assert(v@[i as int] == k);
            return true;
        }
        i = i + 1;
    }
    false
}

/// The first link at or after `from` that leads on from `u` to a node not yet visited.
fn next_child(
    keys: &Vec<Id>,
    links: &Vec<Link>,
    path: &Vec<Id>,
    post: &Vec<Id>,
    u: Id,
    from: usize,
) -> (r: Option<usize>)
    requires
        from <= links@.len(),
    ensures
        match r {
            Some(t) => from <= t < links@.len() && leads_on(keys@, links@, u, t as int) && !visited(
                path@,
                post@,
                links@[t as int].to_node,
            ) && forall|s: int|
                from <= s < t && #[trigger] leads_on(keys@, links@, u, s) ==> visited(
                    path@,
                    post@,
                    links@[s].to_node,
                ),
            None => forall|s: int|
                from <= s < links@.len() && #[trigger] leads_on(keys@, links@, u, s) ==> visited(
                    path@,
                    post@,
                    links@[s].to_node,
                ),
        },
{
    let mut t: usize = from;
    while t < links.len()
        invariant
            from <= t <= links@.len(),
            forall|s: int|
                from <= s < t && #[trigger] leads_on(keys@, links@, u, s) ==> visited(
                    path@,
                    post@,
                    links@[s].to_node,
                ),
        decreases links@.len() - t,
    {
        let l = links[t];
        if l.from_node == u && l.to_node != u && contains_id(keys, l.to_node) && !contains_id(
            path,
            l.to_node,
        ) && !contains_id(post, l.to_node) {
            return Some(t);
        }
        t = t + 1;
    }
    None
}


proof fn lemma_scanned_grows(
    keys: Seq<Id>,
    links: Seq<Link>,
    path: Seq<Id>,
    post: Seq<Id>,
    path2: Seq<Id>,
    post2: Seq<Id>,
    u: Id,
    upto: int,
)
    requires
        scanned(keys, links, path, post, u, upto),
        forall|x: Id| #[trigger] visited(path, post, x) ==> visited(path2, post2, x),
    ensures
        scanned(keys, links, path2, post2, u, upto),
{
    assert forall|t: int|
        0 <= t < upto && #[trigger] leads_on(keys, links, u, t) implies visited(
        path2,
        post2,
        links[t].to_node,
    ) by {
        assert(visited(path, post, links[t].to_node));
    }
}

/// A link from the end of the search path back to a node on it closes a cycle.
proof fn lemma_back_edge_closes_cycle(keys: Seq<Id>, links: Seq<Link>, path: Seq<Id>, j: int)
    requires
        0 <= j < path.len() - 1,
        forall|x: int| 0 <= x < path.len() - 1 ==> is_dep_edge(keys, links, #[trigger] path[x], path[x + 1]),
        is_dep_edge(keys, links, path[path.len() - 1], path[j]),
    ensures
        !is_acyclic(keys, links),
{
    let b = path[j];
    let p = path.subrange(j, path.len() as int).push(b);
    assert forall|i: int| 0 <= i < p.len() - 1 implies is_dep_edge(keys, links, #[trigger] p[i], p[i + 1]) by {
        if i < path.len() - 1 - j {
            assert(p[i] == path[j + i]);
            assert(p[i + 1] == path[j + i + 1]);
        } else {
            assert(p[i] == path[path.len() - 1]);
            assert(p[i + 1] == b);
        }
    }
    assert(is_dep_path(keys, links, p));
    assert(p[0] == b);
    assert(p[p.len() - 1] == b);
}

/// The draw order of the nodes `keys`: the reverse of a depth-first postorder over the
/// links, computed with an explicit stack. Each node appears once, whatever the links;
/// where the dependency graph has no cycle, no edge points backwards in the order.
pub fn topological_order(keys: &Vec<Id>, links: &Vec<Link>) -> (r: Vec<Id>)
    requires
        keys@.no_duplicates(),
    ensures
        r@.no_duplicates(),
        r@.len() == keys@.len(),
        forall|k: Id| r@.contains(k) <==> keys@.contains(k),
        is_acyclic(keys@, links@) ==> respects_edges(keys@, links@, r@),
{
    let mut post: Vec<Id> = Vec::new();
    let mut s: usize = 0;
    while s < keys.len()
        invariant
            s <= keys@.len(),
            keys@.no_duplicates(),
            search_state(keys@, links@, Seq::empty(), Seq::empty(), post@),
            forall|j: int| 0 <= j < s ==> post@.contains(#[trigger] keys@[j]),
            is_acyclic(keys@, links@) ==> finished_in_order(keys@, links@, post@),
        decreases keys@.len() - s,
    {
        let root = keys[s];
        if !contains_id(&post, root) {
            let mut path: Vec<Id> = Vec::new();
            let mut cursor: Vec<usize> = Vec::new();
            path.push(root);
            cursor.push(0);
            proof {
                assert(keys@.contains(keys@[s as int]));
                assert(path@[0] == root);
                assert(path@.disjoint(post@));
                assert(path@.no_duplicates());
            }
            while path.len() > 0
                invariant
                    s < keys@.len(),
                    root == keys@[s as int],
                    keys@.no_duplicates(),
                    search_state(keys@, links@, path@, cursor@, post@),
                    visited(path@, post@, root),
                    forall|j: int| 0 <= j < s ==> post@.contains(#[trigger] keys@[j]),
                    is_acyclic(keys@, links@) ==> finished_in_order(keys@, links@, post@),
                decreases 2 * keys@.len() - 2 * post@.len() - path@.len(),
            {
                proof {
                    lemma_visit_bound(keys@, path@, post@);
                }
                let top = path.len() - 1;
                let u = path[top];
                let from = cursor[top];
                let ghost path0 = path@;
                let ghost cursor0 = cursor@;
                let ghost post0 = post@;
                match next_child(keys, links, &path, &post, u, from) {
                    Some(t) => {
                        let v = links[t].to_node;
                        assert(t < links.len());
                        cursor.set(top, t + 1);
                        path.push(v);
                        cursor.push(0);
                        proof {
                            assert(path@ == path0.push(v));
                            assert forall|x: Id| #[trigger] visited(path0, post0, x) implies visited(path@, post@, x) by {
                                if path0.contains(x) {
                                    let j = choose|j: int| 0 <= j < path0.len() && path0[j] == x;
                                    assert(path@[j] == x);
                                }
                            }
                            assert(is_dep_edge(keys@, links@, u, v)) by {
                                assert(links@[t as int].from_node == u && links@[t as int].to_node == v);
                            }
                            assert(path@.no_duplicates());
                            assert(path@.disjoint(post@));
                            assert forall|j: int| 0 <= j < path@.len() - 1 implies is_dep_edge(
                                keys@,
                                links@,
                                #[trigger] path@[j],
                                path@[j + 1],
                            ) by {
                                if j < path0.len() - 1 {
                                    assert(path@[j] == path0[j] && path@[j + 1] == path0[j + 1]);
                                }
                            }
                            assert forall|j: int| 0 <= j < path@.len() implies keys@.contains(#[trigger] path@[j]) by {
                                if j < path0.len() {
                                    assert(path@[j] == path0[j]);
                                }
                            }
                            assert forall|j: int| 0 <= j < path@.len() implies #[trigger] cursor@[j] <= links@.len()
                                && scanned(keys@, links@, path@, post@, path@[j], cursor@[j] as int) by {
                                if j < top {
                                    assert(path@[j] == path0[j] && cursor@[j] == cursor0[j]);
                                    assert(cursor0[j] <= links@.len());
                                    lemma_scanned_grows(keys@, links@, path0, post0, path@, post@, path0[j], cursor0[j] as int);
                                } else if j == top {
                                    assert(path@[j] == u && cursor@[j] == t + 1);
                                    assert(scanned(keys@, links@, path0, post0, u, from as int));
                                    assert forall|x: int|
                                        0 <= x < t + 1 && #[trigger] leads_on(keys@, links@, u, x) implies visited(
                                        path@,
                                        post@,
                                        links@[x].to_node,
                                    ) by {
                                        if x < from {
                                            assert(visited(path0, post0, links@[x].to_node));
                                        } else if x < t {
                                            assert(visited(path0, post0, links@[x].to_node));
                                        } else {
                                            assert(path@[path@.len() - 1] == links@[x].to_node);
                                        }
                                    }
                                } else {
                                    assert(cursor@[j] == 0);
                                }
                            }
                            assert(visited(path0, post0, root));
                        }
                    },
                    None => {
                        path.pop();
                        cursor.pop();
                        post.push(u);
                        proof {
                            assert(path@ == path0.drop_last());
                            assert(cursor@ == cursor0.drop_last());
                            assert(post@ == post0.push(u));
                            assert(forall|x: Id| #[trigger] visited(path0, post0, x) ==> visited(path@, post@, x)) by {
                                assert forall|x: Id| #[trigger] visited(path0, post0, x) implies visited(path@, post@, x) by {
                                    if path0.contains(x) {
                                        let j = choose|j: int| 0 <= j < path0.len() && path0[j] == x;
                                        if j < top {
                                            assert(path@[j] == x);
                                        } else {
                                            assert(post@[post@.len() - 1] == x);
                                        }
                                    } else {
                                        let j = choose|j: int| 0 <= j < post0.len() && post0[j] == x;
                                        assert(post@[j] == x);
                                    }
                                }
                            }
                            assert(!post0.contains(u)) by {
                                if post0.contains(u) {
                                    let j = choose|j: int| 0 <= j < post0.len() && post0[j] == u;
                                    assert(path0[top as int] != post0[j]);
                                }
                            }
                            assert(post@.no_duplicates());
                            assert(path@.disjoint(post@)) by {
                                assert forall|a: int, b: int| 0 <= a < path@.len() && 0 <= b < post@.len()
                                    implies path@[a] != post@[b] by {
                                    assert(path@[a] == path0[a]);
                                    if b < post0.len() {
                                        assert(post@[b] == post0[b]);
                                    } else {
                                        assert(post@[b] == path0[top as int]);
                                    }
                                }
                            }
                            assert forall|j: int| 0 <= j < post@.len() implies keys@.contains(#[trigger] post@[j]) by {
                                if j < post0.len() {
                                    assert(post@[j] == post0[j]);
                                } else {
                                    assert(post@[j] == path0[top as int]);
                                }
                            }
                            assert forall|j: int| 0 <= j < path@.len() - 1 implies is_dep_edge(
                                keys@,
                                links@,
                                #[trigger] path@[j],
                                path@[j + 1],
                            ) by {
                                assert(path@[j] == path0[j] && path@[j + 1] == path0[j + 1]);
                            }
                            assert forall|j: int| 0 <= j < path@.len() implies keys@.contains(#[trigger] path@[j]) by {
                                assert(path@[j] == path0[j]);
                            }
                            assert forall|j: int| 0 <= j < path@.len() implies #[trigger] cursor@[j] <= links@.len()
                                && scanned(keys@, links@, path@, post@, path@[j], cursor@[j] as int) by {
                                assert(path@[j] == path0[j] && cursor@[j] == cursor0[j]);
                                assert(cursor0[j] <= links@.len());
                                lemma_scanned_grows(keys@, links@, path0, post0, path@, post@, path0[j], cursor0[j] as int);
                            }
                            assert forall|j: int| 0 <= j < s implies post@.contains(#[trigger] keys@[j]) by {
                                let x = keys@[j];
                                assert(post0.contains(x));
                                let q = choose|q: int| 0 <= q < post0.len() && post0[q] == x;
                                assert(post@[q] == x);
                            }
                            if is_acyclic(keys@, links@) {
                                assert(scanned(keys@, links@, path0, post0, u, cursor0[top as int] as int));
                                // every node that `u` leads to has finished already
                                assert forall|b: Id| #[trigger] is_dep_edge(keys@, links@, u, b) implies post0.contains(b) by {
                                    let t = choose|t: int|
                                        0 <= t < links@.len() && (#[trigger] links@[t]).from_node == u && links@[t].to_node == b;
                                    assert(leads_on(keys@, links@, u, t));
                                    assert(visited(path0, post0, b));
                                    if !post0.contains(b) {
                                        let j = choose|j: int| 0 <= j < path0.len() && path0[j] == b;
                                        assert(j != top);
                                        lemma_back_edge_closes_cycle(keys@, links@, path0, j);
                                    }
                                }
                                assert forall|a: Id, b: Id| #[trigger] post@.contains(a) && #[trigger] is_dep_edge(
                                    keys@,
                                    links@,
                                    a,
                                    b,
                                ) implies post@.contains(b) by {
                                    let q = choose|q: int| 0 <= q < post@.len() && post@[q] == a;
                                    if q < post0.len() {
                                        assert(post0[q] == a);
                                        assert(post0.contains(a));
                                        assert(post0.contains(b));
                                    } else {
                                        assert(a == u);
                                        assert(post0.contains(b));
                                    }
                                    let w = choose|w: int| 0 <= w < post0.len() && post0[w] == b;
                                    assert(post@[w] == b);
                                }
                                assert forall|ia: int, ib: int|
                                    0 <= ia < post@.len() && 0 <= ib < post@.len() && is_dep_edge(
                                        keys@,
                                        links@,
                                        #[trigger] post@[ia],
                                        #[trigger] post@[ib],
                                    ) implies ib < ia by {
                                    if ia < post0.len() && ib < post0.len() {
                                        assert(post@[ia] == post0[ia] && post@[ib] == post0[ib]);
                                    } else if ib == post0.len() && ia < post0.len() {
                                        assert(post@[ia] == post0[ia]);
                                        assert(post0.contains(post0[ia]));
                                        assert(post0.contains(u));
                                    }
                                }
                            }
                        }
                    },
                }
            }
        }
        s = s + 1;
    }
    proof {
        assert(post@.to_set() == keys@.to_set()) by {
            assert forall|x: Id| post@.to_set().contains(x) <==> keys@.to_set().contains(x) by {
                if keys@.contains(x) {
                    let j = choose|j: int| 0 <= j < keys@.len() && keys@[j] == x;
                    assert(post@.contains(keys@[j]));
                }
                if post@.contains(x) {
                    let j = choose|j: int| 0 <= j < post@.len() && post@[j] == x;
                    assert(keys@.contains(post@[j]));
                }
            }
            assert(post@.to_set() =~= keys@.to_set());
        }
        post@.unique_seq_to_set();
        keys@.unique_seq_to_set();
    }
    let n = post.len();
    let mut r: Vec<Id> = Vec::new();
    let mut i: usize = 0;
    while i < n
        invariant
            n == post@.len(),
            i <= n,
            r@.len() == i,
            forall|j: int| 0 <= j < i ==> #[trigger] r@[j] == post@[n - 1 - j],
        decreases n - i,
    {
        r.push(post[n - 1 - i]);
        i = i + 1;
    }
    proof {
        assert(r@.no_duplicates()) by {
            assert forall|a: int, b: int| 0 <= a < r@.len() && 0 <= b < r@.len() && a != b implies r@[a] != r@[b] by {
                assert(r@[a] == post@[n - 1 - a] && r@[b] == post@[n - 1 - b]);
            }
        }
        assert forall|k: Id| r@.contains(k) <==> keys@.contains(k) by {
            if r@.contains(k) {
                let j = choose|j: int| 0 <= j < r@.len() && r@[j] == k;
                assert(post@[n - 1 - j] == k);
                assert(post@.to_set().contains(k));
            }
            if keys@.contains(k) {
                assert(keys@.to_set().contains(k));
                assert(post@.contains(k));
                let j = choose|j: int| 0 <= j < post@.len() && post@[j] == k;
                assert(r@[n - 1 - j] == k);
            }
        }
        if is_acyclic(keys@, links@) {
            assert forall|a: int, b: int|
                0 <= a < b < r@.len() implies !is_dep_edge(keys@, links@, #[trigger] r@[b], #[trigger] r@[a]) by {
                assert(r@[a] == post@[n - 1 - a] && r@[b] == post@[n - 1 - b]);
            }
        }
    }
    r
}


/// A node whose links all start and end at itself has no dependency edge, in or out.
pub proof fn lemma_self_links_give_no_edges(keys: Seq<Id>, links: Seq<Link>, k: Id)
    requires
        forall|t: int|
            0 <= t < links.len() && ((#[trigger] links[t]).from_node == k || links[t].to_node == k)
                ==> links[t].from_node == links[t].to_node,
    ensures
        forall|b: Id| !is_dep_edge(keys, links, k, b) && !is_dep_edge(keys, links, b, k),
{
}

/// Two link lists with the same links apart from self-links give the same dependency
/// edges, and so the same acyclicity.
pub proof fn lemma_self_links_leave_dependencies(keys: Seq<Id>, links: Seq<Link>, links2: Seq<Link>)
    requires
        forall|t: int|
            0 <= t < links2.len() && (#[trigger] links2[t]).from_node != links2[t].to_node ==> links.contains(
                links2[t],
            ),
        forall|t: int|
            0 <= t < links.len() && (#[trigger] links[t]).from_node != links[t].to_node ==> links2.contains(
                links[t],
            ),
    ensures
        forall|a: Id, b: Id| #[trigger] is_dep_edge(keys, links2, a, b) == is_dep_edge(keys, links, a, b),
        is_acyclic(keys, links2) == is_acyclic(keys, links),
{
    assert forall|a: Id, b: Id| #[trigger] is_dep_edge(keys, links2, a, b) == is_dep_edge(keys, links, a, b) by {
        if is_dep_edge(keys, links2, a, b) {
            let t = choose|t: int| 0 <= t < links2.len() && (#[trigger] links2[t]).from_node == a && links2[t].to_node == b;
            assert(links.contains(links2[t]));
            let u = choose|u: int| 0 <= u < links.len() && links[u] == links2[t];
            assert(links[u].from_node == a && links[u].to_node == b);
        }
        if is_dep_edge(keys, links, a, b) {
            let t = choose|t: int| 0 <= t < links.len() && (#[trigger] links[t]).from_node == a && links[t].to_node == b;
            assert(links2.contains(links[t]));
            let u = choose|u: int| 0 <= u < links2.len() && links2[u] == links[t];
            assert(links2[u].from_node == a && links2[u].to_node == b);
        }
    }
    assert forall|p: Seq<Id>| #[trigger] is_dep_path(keys, links2, p) == is_dep_path(keys, links, p) by {
        assert forall|i: int| 0 <= i < p.len() - 1 implies is_dep_edge(keys, links2, #[trigger] p[i], p[i + 1])
            == is_dep_edge(keys, links, p[i], p[i + 1]) by {}
    }
    if is_acyclic(keys, links) && !is_acyclic(keys, links2) {
        let p = choose|p: Seq<Id>| !(#[trigger] is_dep_path(keys, links2, p) && p.len() >= 2 ==> p[0] != p[p.len() - 1]);
        assert(is_dep_path(keys, links, p));
    }
    if is_acyclic(keys, links2) && !is_acyclic(keys, links) {
        let p = choose|p: Seq<Id>| !(#[trigger] is_dep_path(keys, links, p) && p.len() >= 2 ==> p[0] != p[p.len() - 1]);
        assert(is_dep_path(keys, links2, p));
    }
}

/// How the cascade treats one node of the draw order.
#[derive(Debug, Clone, Copy, PartialEq, Eq, Structural)]
pub enum Placement {
    /// The node keeps its stored position.
    Keep,
    /// The node is placed one step right of the previous node, above it when `upward`
    /// and below it otherwise.
    Place { upward: bool },
}

/// How many nodes of `has_position` lack a position.
pub open spec fn unplaced_count(has_position: Seq<bool>) -> nat
    decreases has_position.len(),
{
    if has_position.len() == 0 {
        0
    } else {
        unplaced_count(has_position.drop_last()) + if has_position.last() {
            0nat
        } else {
            1nat
        }
    }
}

/// The placement of node `i`: nodes with a stored position keep it; the others step
/// right in turn, going up for the first, down for the second, and so on.
pub open spec fn placement_at(has_position: Seq<bool>, i: int) -> Placement {
    if has_position[i] {
        Placement::Keep
    } else {
        Placement::Place { upward: unplaced_count(has_position.take(i + 1)) % 2 == 1 }
    }
}

/// The zig-zag cascade over a draw order, given which nodes have a stored position.
pub fn cascade_plan(has_position: &Vec<bool>) -> (r: Vec<Placement>)
    ensures
        r@.len() == has_position@.len(),
        forall|i: int| 0 <= i < r@.len() ==> #[trigger] r@[i] == placement_at(has_position@, i),
{
    let mut r: Vec<Placement> = Vec::new();
    let mut upward = false;
    let mut i: usize = 0;
    while i < has_position.len()
        invariant
            i <= has_position@.len(),
            r@.len() == i,
            upward == (unplaced_count(has_position@.take(i as int)) % 2 == 1),
            forall|j: int| 0 <= j < i ==> #[trigger] r@[j] == placement_at(has_position@, j),
        decreases has_position@.len() - i,
    {
        proof {
            assert(has_position@.take(i + 1).drop_last() =~= has_position@.take(i as int));
            assert(has_position@.take(i + 1).last() == has_position@[i as int]);
        }
        if has_position[i] {
            r.push(Placement::Keep);
        } else {
            upward = !upward;
            r.push(Placement::Place { upward });
        }
        i = i + 1;
    }
    r
}

} // verus!
