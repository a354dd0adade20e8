use pw_viz::graph::Graph;
use pw_viz::id::Id;
use pw_viz::layout::{cascade_plan, topological_order, Placement};
use pw_viz::link::Link;
use pw_viz::messages::PortType;
use pw_viz::node::Port;

fn link(id: u32, from: Id, to: Id) -> Link {
    Link { id, from_node: from, to_node: to, from_port: 0, to_port: 0, active: true }
}

fn position(order: &[Id], k: Id) -> usize {
    order.iter().position(|x| *x == k).expect("node in order")
}

#[test]
fn chain_is_ordered_along_links() {
    let (a, b, c, d) = (Id(1), Id(2), Id(3), Id(4));
    let keys = vec![d, c, b, a];
    let links = vec![link(1, b, c), link(2, a, b), link(3, c, d)];
    let order = topological_order(&keys, &links);
    assert_eq!(order, vec![a, b, c, d]);
}

#[test]
fn diamond_respects_every_edge() {
    let (a, b, c, d) = (Id(1), Id(2), Id(3), Id(4));
    let keys = vec![c, d, a, b];
    let links = vec![link(1, a, b), link(2, a, c), link(3, b, d), link(4, c, d)];
    let order = topological_order(&keys, &links);
    assert_eq!(order.len(), 4);
    for l in &links {
        assert!(position(&order, l.from_node) < position(&order, l.to_node));
    }
}

#[test]
fn cycle_still_lists_each_node_once() {
    let (a, b, c) = (Id(1), Id(2), Id(3));
    let keys = vec![a, b, c];
    let links = vec![link(1, a, b), link(2, b, c), link(3, c, a)];
    let order = topological_order(&keys, &links);
    assert_eq!(order.len(), 3);
    for k in &keys {
        assert_eq!(order.iter().filter(|x| *x == k).count(), 1);
    }
}

#[test]
fn self_link_adds_no_dependency() {
    let (a, b) = (Id(1), Id(2));
    let keys = vec![a, b];
    let with_self = topological_order(&keys, &vec![link(1, b, b)]);
    let without = topological_order(&keys, &vec![]);
    assert_eq!(with_self, without);
    assert_eq!(with_self.len(), 2);
}

#[test]
fn links_to_unlisted_nodes_are_ignored() {
    let (a, b, ghost) = (Id(1), Id(2), Id(9));
    let keys = vec![b, a];
    let links = vec![link(1, a, ghost), link(2, a, b)];
    assert_eq!(topological_order(&keys, &links), vec![a, b]);
}

#[test]
fn empty_graph_has_empty_order() {
    assert!(topological_order(&vec![], &vec![]).is_empty());
    assert!(Graph::new().top_sort().is_empty());
}

#[test]
fn graph_order_puts_sources_first() {
    let mut graph = Graph::new();
    graph.add_node("speakers".to_string(), 2, None, None);
    graph.add_node("mic".to_string(), 1, None, None);
    graph.add_port("mic".to_string(), 1, Port::new(10, "out".to_string(), PortType::Output)).unwrap();
    graph.add_port("speakers".to_string(), 2, Port::new(20, "in".to_string(), PortType::Input)).unwrap();
    graph.add_link(100, "mic".to_string(), "speakers".to_string(), 10, 20);
    assert_eq!(graph.top_sort(), vec![Id::new("mic"), Id::new("speakers")]);
}

#[test]
fn cascade_alternates_for_new_nodes() {
    let plan = cascade_plan(&vec![false, true, false, false, true]);
    assert_eq!(
        plan,
        vec![
            Placement::Place { upward: true },
            Placement::Keep,
            Placement::Place { upward: false },
            Placement::Place { upward: true },
            Placement::Keep,
        ]
    );
    assert!(cascade_plan(&vec![]).is_empty());
}

#[test]
fn graph_order_ignores_self_links() {
    let build = |with_self_links: bool| {
        let mut graph = Graph::new();
        graph.add_node("speakers".to_string(), 2, None, None);
        graph.add_node("mic".to_string(), 1, None, None);
        graph.add_node("loop".to_string(), 3, None, None);
        graph.add_port("mic".to_string(), 1, Port::new(10, "out".to_string(), PortType::Output)).unwrap();
        graph.add_port("speakers".to_string(), 2, Port::new(20, "in".to_string(), PortType::Input)).unwrap();
        graph.add_port("loop".to_string(), 3, Port::new(30, "in".to_string(), PortType::Input)).unwrap();
        graph.add_port("loop".to_string(), 3, Port::new(31, "out".to_string(), PortType::Output)).unwrap();
        if with_self_links {
            graph.add_link(200, "loop".to_string(), "loop".to_string(), 31, 30);
            graph.add_link(201, "speakers".to_string(), "speakers".to_string(), 20, 20);
        }
        graph.add_link(100, "mic".to_string(), "speakers".to_string(), 10, 20);
        graph.top_sort()
    };
    let plain = build(false);
    assert_eq!(build(true), plain);
    assert_eq!(plain.len(), 3);
    assert!(position(&plain, Id::new("mic")) < position(&plain, Id::new("speakers")));
}
