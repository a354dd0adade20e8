use pw_viz::directory::{GlobalObject, State};

#[test]
fn state_add_then_get() {
    let mut state = State::new();
    assert!(state.get(3).is_none());
    state.add(3, GlobalObject::Node { name: "mic".to_string() });
    match state.get(3) {
        Some(GlobalObject::Node { name }) => assert_eq!(name, "mic"),
        _ => panic!("node 3 should be registered"),
    }
}

#[test]
fn state_add_overwrites_same_id() {
    let mut state = State::new();
    state.add(7, GlobalObject::Node { name: "mic".to_string() });
    state.add(7, GlobalObject::Link);
    assert!(matches!(state.get(7), Some(GlobalObject::Link)));
}

#[test]
fn state_remove_returns_descriptor_once() {
    let mut state = State::new();
    state.add(9, GlobalObject::Port { node_name: "mic".to_string(), node_id: 1, id: 9 });
    match state.remove(9) {
        Some(GlobalObject::Port { node_name, node_id, id }) => {
            assert_eq!(node_name, "mic");
            assert_eq!(node_id, 1);
            assert_eq!(id, 9);
        }
        _ => panic!("port 9 should come back"),
    }
    assert!(state.remove(9).is_none());
    assert!(state.get(9).is_none());
}
