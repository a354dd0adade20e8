use pw_viz::messages::PortType;
use pw_viz::node::Port;
use pw_viz::port_order::ports_in_natural_order;

fn names(ports: &[&Port]) -> Vec<String> {
    ports.iter().map(|p| p.name.clone()).collect()
}

#[test]
fn ports_sort_by_natural_name_order() {
    let a = Port::new(1, "playback_10".to_string(), PortType::Input);
    let b = Port::new(2, "playback_2".to_string(), PortType::Input);
    let c = Port::new(3, "playback_1".to_string(), PortType::Input);
    let sorted = ports_in_natural_order(&vec![&a, &b, &c]);
    assert_eq!(names(&sorted), vec!["playback_1", "playback_2", "playback_10"]);
}

#[test]
fn ports_with_equal_names_keep_their_order() {
    let a = Port::new(1, "FL".to_string(), PortType::Output);
    let b = Port::new(2, "FL".to_string(), PortType::Output);
    let c = Port::new(3, "AUX0".to_string(), PortType::Output);
    let sorted = ports_in_natural_order(&vec![&a, &b, &c]);
    let ids: Vec<u32> = sorted.iter().map(|p| p.id).collect();
    assert_eq!(ids, vec![3, 1, 2]);
}

#[test]
fn no_ports_give_empty_listing() {
    assert!(ports_in_natural_order(&vec![]).is_empty());
}
