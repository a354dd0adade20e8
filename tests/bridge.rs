use pw_viz::bridge::{
    add_link, handle_command, handle_link_info, handle_node, handle_port, media_type_of,
    node_display_name, object_removed, port_owner, port_type_of_direction, remove_link,
    BridgeAction, BridgeError, LinkInfo, LinkRequest, LinkWatches, NodeProperties, PortProperties,
};
use pw_viz::directory::{GlobalObject, State};
use pw_viz::messages::{LinkUpdate, MediaType, PipewireMessage, PortType, UiMessage};

fn text(s: &str) -> Option<String> {
    Some(s.to_string())
}

fn node_props(nick: Option<String>, description: Option<String>, name: Option<String>) -> NodeProperties {
    NodeProperties { nick, description, name, media_class: None }
}

fn port_props(name: &str, node_id: Option<String>, direction: &str) -> PortProperties {
    PortProperties { name: text(name), node_id, direction: text(direction) }
}

fn state_with_two_ports() -> State {
    let mut state = State::new();
    handle_node(&mut state, 1, &node_props(text("mic"), None, None));
    handle_node(&mut state, 2, &node_props(text("speakers"), None, None));
    handle_port(&mut state, 10, &port_props("capture_FL", text("1"), "out")).unwrap();
    handle_port(&mut state, 20, &port_props("playback_FL", text("2"), "in")).unwrap();
    state
}

#[test]
fn display_name_prefers_nick_then_description_then_name() {
    assert_eq!(node_display_name(&node_props(text("nick"), text("desc"), text("name"))), "nick");
    assert_eq!(node_display_name(&node_props(None, text("desc"), text("name"))), "desc");
    assert_eq!(node_display_name(&node_props(None, None, text("name"))), "name");
    assert_eq!(node_display_name(&node_props(None, None, None)), "");
}

#[test]
fn display_name_skips_empty_values() {
    assert_eq!(node_display_name(&node_props(text(""), text("desc"), text("name"))), "desc");
    assert_eq!(node_display_name(&node_props(text(""), text(""), text("name"))), "name");
    assert_eq!(node_display_name(&node_props(text(""), text(""), text(""))), "");
}

#[test]
fn media_type_by_class_substring() {
    assert_eq!(media_type_of(&text("Audio/Sink")), Some(MediaType::Audio));
    assert_eq!(media_type_of(&text("Video/Source")), Some(MediaType::Video));
    assert_eq!(media_type_of(&text("Midi/Bridge")), Some(MediaType::Midi));
    assert_eq!(media_type_of(&text("Stream/Output/Audio")), Some(MediaType::Audio));
    assert_eq!(media_type_of(&text("Stream/Output")), None);
    assert_eq!(media_type_of(&None), None);
}

#[test]
fn port_direction_from_property() {
    assert_eq!(port_type_of_direction(&text("in")), PortType::Input);
    assert_eq!(port_type_of_direction(&text("out")), PortType::Output);
    assert_eq!(port_type_of_direction(&text("inout")), PortType::Unknown);
    assert_eq!(port_type_of_direction(&None), PortType::Unknown);
}

#[test]
fn node_announcement_registers_and_reports() {
    let mut state = State::new();
    let props = NodeProperties {
        nick: None,
        description: text("Built-in Audio"),
        name: text("alsa_output"),
        media_class: text("Audio/Sink"),
    };
    let message = handle_node(&mut state, 31, &props);
    assert_eq!(
        message,
        PipewireMessage::NodeAdded {
            id: 31,
            name: "Built-in Audio".to_string(),
            description: text("Built-in Audio"),
            media_type: Some(MediaType::Audio),
        }
    );
    assert!(matches!(state.get(31), Some(GlobalObject::Node { name }) if name == "Built-in Audio"));
}

#[test]
fn port_announcement_resolves_owner() {
    let mut state = State::new();
    handle_node(&mut state, 1, &node_props(text("mic"), None, None));
    let message = handle_port(&mut state, 10, &port_props("capture_FL", text("1"), "out"));
    assert_eq!(
        message,
        Ok(PipewireMessage::PortAdded {
            node_name: "mic".to_string(),
            node_id: 1,
            id: 10,
            name: "capture_FL".to_string(),
            port_type: PortType::Output,
        })
    );
    assert_eq!(port_owner(&state, 10), Some(1));
}

#[test]
fn port_without_owner_property_is_dropped() {
    let mut state = State::new();
    handle_node(&mut state, 1, &node_props(text("mic"), None, None));
    assert_eq!(handle_port(&mut state, 10, &port_props("p", None, "in")), Err(BridgeError::MissingNodeId));
    assert!(state.get(10).is_none());
}

#[test]
fn port_with_unparsable_owner_is_dropped() {
    let mut state = State::new();
    handle_node(&mut state, 1, &node_props(text("mic"), None, None));
    assert_eq!(
        handle_port(&mut state, 10, &port_props("p", text("one"), "in")),
        Err(BridgeError::InvalidNodeId)
    );
    assert!(state.get(10).is_none());
}

#[test]
fn port_of_unknown_node_is_dropped() {
    let mut state = State::new();
    assert_eq!(
        handle_port(&mut state, 10, &port_props("p", text("5"), "in")),
        Err(BridgeError::UnregisteredNode(5))
    );
    state.add(6, GlobalObject::Link);
    assert_eq!(
        handle_port(&mut state, 11, &port_props("p", text("6"), "in")),
        Err(BridgeError::UnregisteredNode(6))
    );
    assert!(state.get(10).is_none());
    assert!(state.get(11).is_none());
}

#[test]
fn port_without_name_gets_empty_name() {
    let mut state = State::new();
    handle_node(&mut state, 1, &node_props(text("mic"), None, None));
    let props = PortProperties { name: None, node_id: text("1"), direction: None };
    match handle_port(&mut state, 12, &props) {
        Ok(PipewireMessage::PortAdded { name, port_type, .. }) => {
            assert_eq!(name, "");
            assert_eq!(port_type, PortType::Unknown);
        }
        other => panic!("unexpected {:?}", other),
    }
}

fn info(id: u32, state_changed: bool) -> LinkInfo {
    LinkInfo { id, output_node: 1, output_port: 10, input_node: 2, input_port: 20, state_changed }
}

#[test]
fn first_link_info_registers_link() {
    let mut state = state_with_two_ports();
    let message = handle_link_info(&mut state, info(100, false));
    assert_eq!(
        message,
        Ok(Some(PipewireMessage::LinkAdded {
            id: 100,
            from_node_name: "mic".to_string(),
            to_node_name: "speakers".to_string(),
            from_port: 10,
            to_port: 20,
        }))
    );
    assert!(matches!(state.get(100), Some(GlobalObject::Link)));
}

#[test]
fn later_link_info_reports_activation() {
    let mut state = state_with_two_ports();
    handle_link_info(&mut state, info(100, false)).unwrap();
    assert_eq!(
        handle_link_info(&mut state, info(100, true)),
        Ok(Some(PipewireMessage::LinkStateChanged { id: 100, active: true }))
    );
    assert_eq!(handle_link_info(&mut state, info(100, false)), Ok(None));
}

#[test]
fn link_info_with_unknown_endpoint_is_dropped() {
    let mut state = state_with_two_ports();
    let mut bad = info(100, false);
    bad.output_node = 9;
    assert_eq!(handle_link_info(&mut state, bad), Err(BridgeError::UnregisteredNode(9)));
    let mut bad_input = info(101, false);
    bad_input.input_node = 10;
    assert_eq!(handle_link_info(&mut state, bad_input), Err(BridgeError::UnregisteredNode(10)));
    assert!(state.get(100).is_none());
    assert!(state.get(101).is_none());
}

#[test]
fn removal_reports_what_was_registered() {
    let mut state = state_with_two_ports();
    handle_link_info(&mut state, info(100, false)).unwrap();
    let mut watches: LinkWatches<&str> = LinkWatches::new();
    watches.watch(100, "proxy");
    assert_eq!(
        object_removed(&mut state, &mut watches, 100),
        Some(PipewireMessage::LinkRemoved { id: 100 })
    );
    assert!(!watches.is_watched(100));
    assert_eq!(
        object_removed(&mut state, &mut watches, 10),
        Some(PipewireMessage::PortRemoved { node_name: "mic".to_string(), node_id: 1, id: 10 })
    );
    assert_eq!(
        object_removed(&mut state, &mut watches, 1),
        Some(PipewireMessage::NodeRemoved { name: "mic".to_string(), id: 1 })
    );
    assert_eq!(object_removed(&mut state, &mut watches, 1), None);
    assert_eq!(object_removed(&mut state, &mut watches, 555), None);
}

#[test]
fn removal_of_unregistered_id_keeps_its_watch() {
    let mut state = State::new();
    let mut watches: LinkWatches<u8> = LinkWatches::new();
    watches.watch(7, 1);
    assert_eq!(object_removed(&mut state, &mut watches, 7), None);
    assert!(watches.is_watched(7));
    assert_eq!(watches.unwatch(7), Some(1));
}

#[test]
fn removal_of_registered_node_drops_its_watch() {
    let mut state = State::new();
    handle_node(&mut state, 4, &node_props(text("mic"), None, None));
    let mut watches: LinkWatches<u8> = LinkWatches::new();
    watches.watch(4, 1);
    watches.watch(5, 2);
    assert_eq!(
        object_removed(&mut state, &mut watches, 4),
        Some(PipewireMessage::NodeRemoved { name: "mic".to_string(), id: 4 })
    );
    assert!(!watches.is_watched(4));
    assert!(watches.is_watched(5));
}

#[test]
fn link_watches_keep_one_per_id() {
    let mut watches: LinkWatches<u8> = LinkWatches::new();
    watches.watch(1, 10);
    watches.watch(1, 11);
    assert!(watches.is_watched(1));
    assert_eq!(watches.unwatch(1), Some(11));
    assert_eq!(watches.unwatch(1), None);
}

#[test]
fn add_link_request_lingers() {
    let state = state_with_two_ports();
    let request = add_link(&state, 10, 20);
    assert_eq!(
        request,
        LinkRequest { output_node: 1, output_port: 10, input_node: 2, input_port: 20, linger: true }
    );
    match handle_command(&state, UiMessage::AddLink { from_port: 10, to_port: 20 }) {
        BridgeAction::CreateLink(r) => {
            assert!(r.linger);
            assert_eq!(r, request);
        }
        other => panic!("unexpected {:?}", other),
    }
}

#[test]
fn remove_link_only_for_registered_links() {
    let mut state = state_with_two_ports();
    assert_eq!(remove_link(&state, 100), None);
    assert_eq!(remove_link(&state, 10), None);
    assert_eq!(remove_link(&state, 1), None);
    assert_eq!(handle_command(&state, UiMessage::RemoveLink(10)), BridgeAction::Ignore);
    handle_link_info(&mut state, info(100, false)).unwrap();
    assert_eq!(remove_link(&state, 100), Some(100));
    assert_eq!(handle_command(&state, UiMessage::RemoveLink(100)), BridgeAction::DestroyLink(100));
}

#[test]
fn exit_command_quits() {
    let state = State::new();
    assert_eq!(handle_command(&state, UiMessage::Exit), BridgeAction::Quit);
}

#[test]
fn link_gestures_become_commands() {
    let created = LinkUpdate::Created { from_port: 10, to_port: 20, from_node: 1, to_node: 2 };
    assert_eq!(created.to_command(), UiMessage::AddLink { from_port: 10, to_port: 20 });
    assert_eq!(LinkUpdate::Removed(100).to_command(), UiMessage::RemoveLink(100));
}

#[test]
fn destroyed_link_gesture_wins_over_created() {
    assert_eq!(LinkUpdate::from_gestures(Some(100), Some((10, 1, 20, 2))), Some(LinkUpdate::Removed(100)));
    assert_eq!(
        LinkUpdate::from_gestures(None, Some((10, 1, 20, 2))),
        Some(LinkUpdate::Created { from_port: 10, to_port: 20, from_node: 1, to_node: 2 })
    );
    assert_eq!(LinkUpdate::from_gestures(None, None), None);
}
