use pw_viz::graph::Graph;
use pw_viz::id::Id;
use pw_viz::link::Link;
use pw_viz::messages::{MediaType, PipewireMessage, PortType};
use pw_viz::node::{GraphError, Port};

fn node_added(id: u32, name: &str) -> PipewireMessage {
    PipewireMessage::NodeAdded { id, name: name.to_string(), description: None, media_type: Some(MediaType::Audio) }
}

fn port_added(node_name: &str, node_id: u32, id: u32, name: &str, port_type: PortType) -> PipewireMessage {
    PipewireMessage::PortAdded { node_name: node_name.to_string(), node_id, id, name: name.to_string(), port_type }
}

fn total_ports(graph: &Graph) -> usize {
    let mut total = 0;
    for node in graph.nodes() {
        for member in node.pw_nodes() {
            total += member.ports.len();
        }
    }
    total
}

fn mic_and_speakers() -> Graph {
    let mut graph = Graph::new();
    let events = vec![
        node_added(1, "mic"),
        port_added("mic", 1, 10, "capture_FL", PortType::Output),
        node_added(2, "speakers"),
        port_added("speakers", 2, 20, "playback_FL", PortType::Input),
        PipewireMessage::LinkAdded {
            id: 100,
            from_node_name: "mic".to_string(),
            to_node_name: "speakers".to_string(),
            from_port: 10,
            to_port: 20,
        },
    ];
    for event in events {
        assert_eq!(graph.process_message(event), Ok(()));
    }
    graph
}

#[test]
fn events_build_two_nodes_two_ports_one_link() {
    let graph = mic_and_speakers();
    assert_eq!(graph.nodes().len(), 2);
    assert_eq!(total_ports(&graph), 2);
    assert_eq!(graph.links().len(), 1);
    let link = graph.get_link(100).expect("link 100");
    assert!(link.active);
    assert_eq!(link.from_port, 10);
    assert_eq!(link.to_port, 20);
    assert_eq!(link.from_node, Id::new("mic"));
    assert_eq!(link.to_node, Id::new("speakers"));
}

#[test]
fn removing_link_then_node_leaves_speakers() {
    let mut graph = mic_and_speakers();
    assert_eq!(graph.process_message(PipewireMessage::LinkRemoved { id: 100 }), Ok(()));
    assert_eq!(graph.process_message(PipewireMessage::NodeRemoved { name: "mic".to_string(), id: 1 }), Ok(()));
    assert_eq!(graph.nodes().len(), 1);
    assert_eq!(graph.nodes()[0].name(), "speakers");
    assert_eq!(graph.links().len(), 0);
}

#[test]
fn same_name_nodes_merge_until_last_member_leaves() {
    let mut graph = Graph::new();
    graph.add_node("card".to_string(), 5, None, None);
    graph.add_node("card".to_string(), 6, Some("second".to_string()), Some(MediaType::Midi));
    assert_eq!(graph.nodes().len(), 1);
    assert_eq!(graph.nodes()[0].pw_nodes().len(), 2);
    assert_eq!(graph.remove_node("card", 5), Ok(()));
    assert_eq!(graph.nodes().len(), 1);
    assert_eq!(graph.nodes()[0].pw_nodes().len(), 1);
    assert_eq!(graph.nodes()[0].pw_nodes()[0].id, 6);
    assert_eq!(graph.remove_node("card", 6), Ok(()));
    assert_eq!(graph.nodes().len(), 0);
}

#[test]
fn node_exists_while_any_member_does() {
    let mut graph = Graph::new();
    let key = Id::new("bus");
    graph.add_node("bus".to_string(), 1, None, None);
    graph.add_node("bus".to_string(), 2, None, None);
    graph.add_node("bus".to_string(), 3, None, None);
    assert!(graph.contains_node(key));
    graph.remove_node("bus", 2).unwrap();
    assert!(graph.contains_node(key));
    graph.remove_node("bus", 1).unwrap();
    assert!(graph.contains_node(key));
    graph.add_node("bus".to_string(), 4, None, None);
    graph.remove_node("bus", 3).unwrap();
    assert!(graph.contains_node(key));
    graph.remove_node("bus", 4).unwrap();
    assert!(!graph.contains_node(key));
}

#[test]
fn removing_unknown_member_keeps_node() {
    let mut graph = Graph::new();
    graph.add_node("card".to_string(), 5, None, None);
    assert_eq!(graph.remove_node("card", 99), Ok(()));
    assert_eq!(graph.nodes().len(), 1);
}

#[test]
fn removing_unknown_node_is_declined() {
    let mut graph = Graph::new();
    assert_eq!(graph.remove_node("ghost", 1), Err(GraphError::UnknownNode(Id::new("ghost"))));
}

#[test]
fn removing_port_touches_only_its_member() {
    let mut graph = Graph::new();
    graph.add_node("a".to_string(), 1, None, None);
    graph.add_node("a".to_string(), 2, None, None);
    graph.add_node("b".to_string(), 3, None, None);
    graph.add_port("a".to_string(), 1, Port::new(10, "x".to_string(), PortType::Input)).unwrap();
    graph.add_port("a".to_string(), 2, Port::new(11, "y".to_string(), PortType::Input)).unwrap();
    graph.add_port("b".to_string(), 3, Port::new(12, "z".to_string(), PortType::Output)).unwrap();
    graph.remove_port("a", 1, 10).unwrap();
    let a = &graph.nodes()[0];
    let b = &graph.nodes()[1];
    assert_eq!(a.pw_nodes()[0].ports.len(), 0);
    assert_eq!(a.pw_nodes()[1].ports.len(), 1);
    assert!(a.pw_nodes()[1].ports.contains_key(&11));
    assert_eq!(b.pw_nodes()[0].ports.len(), 1);
    assert!(b.pw_nodes()[0].ports.contains_key(&12));
}

#[test]
fn port_events_for_unknown_owners_are_declined() {
    let mut graph = Graph::new();
    assert_eq!(
        graph.add_port("ghost".to_string(), 1, Port::new(10, "x".to_string(), PortType::Input)),
        Err(GraphError::UnknownNode(Id::new("ghost")))
    );
    graph.add_node("a".to_string(), 1, None, None);
    assert_eq!(
        graph.add_port("a".to_string(), 2, Port::new(10, "x".to_string(), PortType::Input)),
        Err(GraphError::UnknownMember(2))
    );
    assert_eq!(graph.remove_port("a", 2, 10), Err(GraphError::UnknownMember(2)));
    assert_eq!(graph.remove_port("ghost", 1, 10), Err(GraphError::UnknownNode(Id::new("ghost"))));
    assert_eq!(total_ports(&graph), 0);
}

#[test]
fn link_to_unknown_node_or_port_is_declined() {
    let mut graph = mic_and_speakers();
    let to_ghost = PipewireMessage::LinkAdded {
        id: 101,
        from_node_name: "mic".to_string(),
        to_node_name: "ghost".to_string(),
        from_port: 10,
        to_port: 20,
    };
    assert_eq!(graph.process_message(to_ghost), Err(GraphError::UnknownNode(Id::new("ghost"))));
    let to_unknown_port = PipewireMessage::LinkAdded {
        id: 102,
        from_node_name: "mic".to_string(),
        to_node_name: "speakers".to_string(),
        from_port: 10,
        to_port: 21,
    };
    assert_eq!(graph.process_message(to_unknown_port), Err(GraphError::UnknownPort(21)));
    assert_eq!(graph.links().len(), 1);
}

#[test]
fn link_state_change_sets_flag() {
    let mut graph = mic_and_speakers();
    graph.process_message(PipewireMessage::LinkStateChanged { id: 100, active: false }).unwrap();
    assert!(!graph.get_link(100).unwrap().active);
    graph.process_message(PipewireMessage::LinkStateChanged { id: 100, active: true }).unwrap();
    assert!(graph.get_link(100).unwrap().active);
    graph.process_message(PipewireMessage::LinkStateChanged { id: 555, active: true }).unwrap();
    assert!(graph.get_link(555).is_none());
}

#[test]
fn add_link_replaces_same_id() {
    let mut graph = mic_and_speakers();
    graph.add_link(100, "speakers".to_string(), "mic".to_string(), 20, 10);
    assert_eq!(graph.links().len(), 1);
    let link = graph.get_link(100).unwrap();
    assert_eq!(link.from_port, 20);
    assert_eq!(link.from_node, Id::new("speakers"));
}

#[test]
fn remove_link_hands_back_link() {
    let mut graph = mic_and_speakers();
    let removed = graph.remove_link(100).expect("link 100");
    assert_eq!(removed.id, 100);
    assert_eq!(removed.to_port, 20);
    assert!(graph.remove_link(100).is_none());
}

#[test]
fn port_removed_event_updates_port_set() {
    let mut graph = mic_and_speakers();
    let event = PipewireMessage::PortRemoved { node_name: "mic".to_string(), node_id: 1, id: 10 };
    assert_eq!(graph.process_message(event), Ok(()));
    assert_eq!(total_ports(&graph), 1);
    assert!(!graph.contains_port(10));
    assert!(graph.contains_port(20));
}

#[test]
fn id_depends_on_name_only() {
    assert_eq!(Id::new("mic"), Id::new("mic"));
    assert_ne!(Id::new("mic"), Id::new("speakers"));
    assert_eq!(Id::new("mic").value(), Id::new(&"mic".to_string()).value());
    assert_eq!(Id::new("mic").value(), Id::new("mic").0);
}

#[test]
fn node_keeps_name_and_identity() {
    let mut graph = Graph::new();
    graph.add_node("mic".to_string(), 1, Some("desc".to_string()), None);
    let node = &graph.nodes()[0];
    assert_eq!(node.name(), "mic");
    assert_eq!(node.id(), Id::new("mic"));
    assert_eq!(node.pw_nodes()[0].description, Some("desc".to_string()));
}

#[test]
fn self_link_is_detected() {
    let a = Id::new("a");
    let b = Id::new("b");
    let self_link = Link { id: 1, from_node: a, to_node: a, from_port: 1, to_port: 2, active: true };
    let other = Link { id: 2, from_node: a, to_node: b, from_port: 1, to_port: 3, active: true };
    assert!(self_link.is_self_link());
    assert!(!other.is_self_link());
}
