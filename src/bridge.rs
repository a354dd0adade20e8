//! The registry bridge's decisions: how each server notification changes the object
//! directory and which event it produces, and what each edit command asks of the server.
//!
//! The server connection itself is driven by the caller, which hands these functions the
//! plain property values of each notification and carries out the returned requests.
use std::collections::HashMap;
use vstd::prelude::*;
use crate::directory::{GlobalObject, State};
use crate::messages::{MediaType, PipewireMessage, PortType, UiMessage};
use crate::text::{
    contains_str, digits_value, is_substring, is_u32_literal, parse_u32, str_eq, unsigned_digits,
};

verus! {

broadcast use vstd::std_specs::hash::group_hash_axioms;

/// The properties of a node announcement that the bridge reads.
pub struct NodeProperties {
    pub nick: Option<String>,
    pub description: Option<String>,
    pub name: Option<String>,
    pub media_class: Option<String>,
}

/// The properties of a port announcement that the bridge reads.
pub struct PortProperties {
    pub name: Option<String>,
    pub node_id: Option<String>,
    pub direction: Option<String>,
}

/// A link-info notification.
#[derive(Debug, Clone, Copy, PartialEq, Eq, Structural)]
pub struct LinkInfo {
    pub id: u32,
    pub output_node: u32,
    pub output_port: u32,
    pub input_node: u32,
    pub input_port: u32,
    /// The notification reports a change of the link's activation state.
    pub state_changed: bool,
}

/// Why a notification was dropped.
#[derive(Debug, Clone, Copy, PartialEq, Eq, Structural)]
pub enum BridgeError {
    /// A port has no owning-node property.
    MissingNodeId,
    /// A port's owning-node property is not a decimal `u32`.
    InvalidNodeId,
    /// A notification names a node that was never announced.
    UnregisteredNode(u32),
}

/// A request to create a link between two ports.
#[derive(Debug, Clone, Copy, PartialEq, Eq, Structural)]
pub struct LinkRequest {
    pub output_node: u32,
    pub output_port: u32,
    pub input_node: u32,
    pub input_port: u32,
    /// Keep the link object alive for a while after an endpoint disappears.
    pub linger: bool,
}

/// What the server-facing loop does for an edit command.
#[derive(Debug, Clone, Copy, PartialEq, Eq, Structural)]
pub enum BridgeAction {
    CreateLink(LinkRequest),
    DestroyLink(u32),
    Ignore,
    Quit,
}

pub open spec fn is_present(o: Option<String>) -> bool {
    o matches Some(s) && s@.len() > 0
}

/// Display name of a node: its nick, else its description, else its name, else empty;
/// an empty value counts as absent.
pub open spec fn display_name_of(p: NodeProperties) -> Seq<char> {
    if is_present(p.nick) {
        p.nick.unwrap()@
    } else if is_present(p.description) {
        p.description.unwrap()@
    } else if is_present(p.name) {
        p.name.unwrap()@
    } else {
        Seq::empty()
    }
}

/// Media kind by substring of the class property, tried in the order audio, video, MIDI.
pub open spec fn media_kind_of(class: Option<String>) -> Option<MediaType> {
    match class {
        Some(c) => if is_substring(c@, "Audio"@) {
            Some(MediaType::Audio)
        } else if is_substring(c@, "Video"@) {
            Some(MediaType::Video)
        } else if is_substring(c@, "Midi"@) {
            Some(MediaType::Midi)
        } else {
            None
        },
        None => None,
    }
}

pub open spec fn port_type_of(direction: Option<String>) -> PortType {
    match direction {
        Some(d) => if d@ == "in"@ {
            PortType::Input
        } else if d@ == "out"@ {
            PortType::Output
        } else {
            PortType::Unknown
        },
        None => PortType::Unknown,
    }
}

pub open spec fn text_or_empty(o: Option<String>) -> Seq<char> {
    match o {
        Some(s) => s@,
        None => Seq::empty(),
    }
}

/// The display name recorded for `node_id`, where it is a registered node.
pub open spec fn node_name_in(dir: Map<u32, GlobalObject>, node_id: u32) -> Option<String> {
    if dir.contains_key(node_id) && dir[node_id] is Node {
        Some(dir[node_id]->name)
    } else {
        None
    }
}

pub open spec fn is_port(dir: Map<u32, GlobalObject>, id: u32) -> bool {
    dir.contains_key(id) && dir[id] is Port
}

pub open spec fn is_link(dir: Map<u32, GlobalObject>, id: u32) -> bool {
    dir.contains_key(id) && dir[id] is Link
}

/// The event for the removal of `id`, from what the directory recorded of it.
pub open spec fn removal_event(dir: Map<u32, GlobalObject>, id: u32) -> Option<PipewireMessage> {
    if !dir.contains_key(id) {
        None
    } else {
        match dir[id] {
            GlobalObject::Node { name } => Some(PipewireMessage::NodeRemoved { name, id }),
            GlobalObject::Link => Some(PipewireMessage::LinkRemoved { id }),
            GlobalObject::Port { node_name, node_id, .. } => Some(
                PipewireMessage::PortRemoved { node_name, node_id, id },
            ),
        }
    }
}

/// The create request for a link from `from_port` to `to_port`, both registered ports.
pub open spec fn link_request_of(dir: Map<u32, GlobalObject>, from_port: u32, to_port: u32) -> LinkRequest {
    LinkRequest {
        output_node: dir[from_port]->node_id,
        output_port: from_port,
        input_node: dir[to_port]->node_id,
        input_port: to_port,
        linger: true,
    }
}

pub open spec fn command_action(dir: Map<u32, GlobalObject>, command: UiMessage) -> BridgeAction {
    match command {
        UiMessage::RemoveLink(id) => if is_link(dir, id) {
            BridgeAction::DestroyLink(id)
        } else {
            BridgeAction::Ignore
        },
        UiMessage::AddLink { from_port, to_port } => BridgeAction::CreateLink(
            link_request_of(dir, from_port, to_port),
        ),
        UiMessage::Exit => BridgeAction::Quit,
    }
}

fn present_text(o: &Option<String>) -> (r: Option<&String>)
    ensures
        is_present(*o) ==> r == Some(&o.unwrap()),
        !is_present(*o) ==> r is None,
{
    match o {
        Some(s) => if s.as_str().is_empty() {
            None
        } else {
            Some(s)
        },
        None => None,
    }
}

fn clone_text(o: &Option<String>) -> (r: Option<String>)
    ensures
        r == *o,
{
    match o {
        Some(s) => Some(s.clone()),
        None => None,
    }
}

/// The display name of a node, from its properties.
pub fn node_display_name(props: &NodeProperties) -> (r: String)
    ensures
        r@ == display_name_of(*props),
{
    if let Some(s) = present_text(&props.nick) {
        s.clone()
    } else if let Some(s) = present_text(&props.description) {
        s.clone()
    } else if let Some(s) = present_text(&props.name) {
        s.clone()
    } else {
        String::new()
    }
}

/// The media kind that a class property names, if any.
pub fn media_type_of(class: &Option<String>) -> (r: Option<MediaType>)
    ensures
        r == media_kind_of(*class),
{
    match class {
        Some(c) => if contains_str(c.as_str(), "Audio") {
            Some(MediaType::Audio)
        } else if contains_str(c.as_str(), "Video") {
            Some(MediaType::Video)
        } else if contains_str(c.as_str(), "Midi") {
            Some(MediaType::Midi)
        } else {
            None
        },
        None => None,
    }
}

/// The direction that a port's direction property names.
pub fn port_type_of_direction(direction: &Option<String>) -> (r: PortType)
    ensures
        r == port_type_of(*direction),
{
    match direction {
        Some(d) => if str_eq(d.as_str(), "in") {
            PortType::Input
        } else if str_eq(d.as_str(), "out") {
            PortType::Output
        } else {
            PortType::Unknown
        },
        None => PortType::Unknown,
    }
}

/// The name recorded for `node_id` if the directory holds a node under it.
pub fn registered_node_name(state: &State, node_id: u32) -> (r: Option<String>)
    ensures
        r == node_name_in(state@, node_id),
{
    match state.get(node_id) {
        Some(GlobalObject::Node { name }) => Some(name.clone()),
        _ => None,
    }
}

/// The owning node of `port_id` if the directory holds a port under it.
pub fn port_owner(state: &State, port_id: u32) -> (r: Option<u32>)
    ensures
        r == (if is_port(state@, port_id) {
            Some(state@[port_id]->node_id)
        } else {
            None
        }),
{
    match state.get(port_id) {
        Some(GlobalObject::Port { node_id, .. }) => Some(*node_id),
        _ => None,
    }
}

/// A node was announced: record it and produce its event.
pub fn handle_node(state: &mut State, id: u32, props: &NodeProperties) -> (r: PipewireMessage)
    ensures
        r matches PipewireMessage::NodeAdded { id: rid, name, description, media_type } && rid
            == id && name@ == display_name_of(*props) && description == props.description
            && media_type == media_kind_of(props.media_class) && final(state)@ == old(state)@.insert(
            id,
            (GlobalObject::Node { name }),
        ),
{
    let name = node_display_name(props);
    let media_type = media_type_of(&props.media_class);
    state.add(id, GlobalObject::Node { name: name.clone() });
    PipewireMessage::NodeAdded { id, name, description: clone_text(&props.description), media_type }
}

/// A port was announced: resolve its owner, record it and produce its event.
///
/// The port is dropped, and the directory left as it was, when its owning-node property
/// is missing or not a decimal `u32`, or names no registered node.
pub fn handle_port(state: &mut State, id: u32, props: &PortProperties) -> (r: Result<
    PipewireMessage,
    BridgeError,
>)
    ensures
        match props.node_id {
            None => r == Err::<PipewireMessage, BridgeError>(BridgeError::MissingNodeId)
                && final(state)@ == old(state)@,
            Some(s) => if !is_u32_literal(s@) {
                r == Err::<PipewireMessage, BridgeError>(BridgeError::InvalidNodeId)
                    && final(state)@ == old(state)@
            } else {
                let node_id = digits_value(unsigned_digits(s@)) as u32;
                match node_name_in(old(state)@, node_id) {
                    None => r == Err::<PipewireMessage, BridgeError>(
                        BridgeError::UnregisteredNode(node_id),
                    ) && final(state)@ == old(state)@,
                    Some(node_name) => r matches Ok(
                        PipewireMessage::PortAdded {
                            node_name: port_node_name,
                            node_id: port_node_id,
                            id: port_id,
                            name,
                            port_type,
                        },
                    ) && port_node_name == node_name && port_node_id == node_id && port_id == id
                        && name@ == text_or_empty(props.name) && port_type == port_type_of(
                        props.direction,
                    ) && final(state)@ == old(state)@.insert(
                        id,
                        (GlobalObject::Port { node_name, node_id, id }),
                    ),
                }
            },
        },
{
    let node_id = match &props.node_id {
        None => {
            return Err(BridgeError::MissingNodeId);
        },
        Some(s) => match parse_u32(s.as_str()) {
            None => {
                return Err(BridgeError::InvalidNodeId);
            },
            Some(n) => n,
        },
    };
    let node_name = match registered_node_name(state, node_id) {
        None => {
            return Err(BridgeError::UnregisteredNode(node_id));
        },
        Some(n) => n,
    };
    let name = match &props.name {
        Some(n) => n.clone(),
        None => String::new(),
    };
    let port_type = port_type_of_direction(&props.direction);
    state.add(id, GlobalObject::Port { node_name: node_name.clone(), node_id, id });
    Ok(PipewireMessage::PortAdded { node_name, node_id, id, name, port_type })
}

/// A link-info notification arrived.
///
/// The first one for an id registers the link, once both endpoint nodes are known;
/// later ones report activation when the state changed.
pub fn handle_link_info(state: &mut State, info: LinkInfo) -> (r: Result<
    Option<PipewireMessage>,
    BridgeError,
>)
    ensures
        is_link(old(state)@, info.id) ==> final(state)@ == old(state)@ && r == Ok::<
            Option<PipewireMessage>,
            BridgeError,
        >(
            if info.state_changed {
                Some(PipewireMessage::LinkStateChanged { id: info.id, active: true })
            } else {
                None
            },
        ),
        !is_link(old(state)@, info.id) ==> match (
            node_name_in(old(state)@, info.output_node),
            node_name_in(old(state)@, info.input_node),
        ) {
            (None, _) => r == Err::<Option<PipewireMessage>, BridgeError>(
                BridgeError::UnregisteredNode(info.output_node),
            ) && final(state)@ == old(state)@,
            (Some(_), None) => r == Err::<Option<PipewireMessage>, BridgeError>(
                BridgeError::UnregisteredNode(info.input_node),
            ) && final(state)@ == old(state)@,
            (Some(from), Some(to)) => r == Ok::<Option<PipewireMessage>, BridgeError>(
                Some(
                    PipewireMessage::LinkAdded {
                        id: info.id,
                        from_node_name: from,
                        to_node_name: to,
                        from_port: info.output_port,
                        to_port: info.input_port,
                    },
                ),
            ) && final(state)@ == old(state)@.insert(info.id, GlobalObject::Link),
        },
{
    let known = match state.get(info.id) {
        Some(GlobalObject::Link) => true,
        _ => false,
    };
    if known {
        if info.state_changed {
            return Ok(Some(PipewireMessage::LinkStateChanged { id: info.id, active: true }));
        } else {
            return Ok(None);
        }
    }
    let from_node_name = match registered_node_name(state, info.output_node) {
        None => {
            return Err(BridgeError::UnregisteredNode(info.output_node));
        },
        Some(n) => n,
    };
    let to_node_name = match registered_node_name(state, info.input_node) {
        None => {
            return Err(BridgeError::UnregisteredNode(info.input_node));
        },
        Some(n) => n,
    };
    state.add(info.id, GlobalObject::Link);
    Ok(
        Some(
            PipewireMessage::LinkAdded {
                id: info.id,
                from_node_name,
                to_node_name,
                from_port: info.output_port,
                to_port: info.input_port,
            },
        ),
    )
}

/// The live watches on link objects, one per link id.
#[verifier::reject_recursive_types(W)]
pub struct LinkWatches<W> {
    watches: HashMap<u32, W>,
}

impl<W> View for LinkWatches<W> {
    type V = Map<u32, W>;

    closed spec fn view(&self) -> Map<u32, W> {
        self.watches@
    }
}

impl<W> LinkWatches<W> {
    pub fn new() -> (r: Self)
        ensures
            r@ == Map::<u32, W>::empty(),
    {
        LinkWatches { watches: HashMap::new() }
    }

    /// Keeps `watch` for link `id`, dropping one held before under the same id.
    pub fn watch(&mut self, id: u32, watch: W)
        ensures
            final(self)@ == old(self)@.insert(id, watch),
    {
        self.watches.insert(id, watch);
    }

    pub fn unwatch(&mut self, id: u32) -> (r: Option<W>)
        ensures
            final(self)@ == old(self)@.remove(id),
            match r {
                Some(w) => old(self)@.contains_key(id) && w == old(self)@[id],
                None => !old(self)@.contains_key(id),
            },
    {
        self.watches.remove(&id)
    }

    pub fn is_watched(&self, id: u32) -> (r: bool)
        ensures
            r == self@.contains_key(id),
    {
        self.watches.contains_key(&id)
    }
}

/// An object was removed: forget it and its watch, and produce the event for what it was.
///
/// An id that was never registered produces no event and changes nothing, its watch
/// included.
pub fn object_removed<W>(state: &mut State, watches: &mut LinkWatches<W>, id: u32) -> (r: Option<
    PipewireMessage,
>)
    ensures
        final(state)@ == old(state)@.remove(id),
        final(watches)@ == (if old(state)@.contains_key(id) {
            old(watches)@.remove(id)
        } else {
            old(watches)@
        }),
        r == removal_event(old(state)@, id),
{
    match state.remove(id) {
        Some(GlobalObject::Node { name }) => {
            let _ = watches.unwatch(id);
            Some(PipewireMessage::NodeRemoved { name, id })
        },
        Some(GlobalObject::Link) => {
            let _ = watches.unwatch(id);
            Some(PipewireMessage::LinkRemoved { id })
        },
        Some(GlobalObject::Port { node_name, node_id, .. }) => {
            let _ = watches.unwatch(id);
            Some(PipewireMessage::PortRemoved { node_name, node_id, id })
        },
        None => None,
    }
}

/// The create request for a link between two registered ports.
pub fn add_link(state: &State, from_port: u32, to_port: u32) -> (r: LinkRequest)
    requires
        is_port(state@, from_port),
        is_port(state@, to_port),
    ensures
        r == link_request_of(state@, from_port, to_port),
        r.linger,
{
    let output_node = match port_owner(state, from_port) {
        Some(n) => n,
        None => 0,
    };
    let input_node = match port_owner(state, to_port) {
        Some(n) => n,
        None => 0,
    };
    LinkRequest { output_node, output_port: from_port, input_node, input_port: to_port, linger: true }
}

/// The link to destroy for a removal command: `link_id` itself where the directory
/// classifies it as a link, else nothing.
pub fn remove_link(state: &State, link_id: u32) -> (r: Option<u32>)
    ensures
        r == (if is_link(state@, link_id) {
            Some(link_id)
        } else {
            None
        }),
{
    match state.get(link_id) {
        Some(GlobalObject::Link) => Some(link_id),
        _ => None,
    }
}

/// What the server-facing loop does for `command`.
pub fn handle_command(state: &State, command: UiMessage) -> (r: BridgeAction)
    requires
        command matches UiMessage::AddLink { from_port, to_port } ==> is_port(state@, from_port)
            && is_port(state@, to_port),
    ensures
        r == command_action(state@, command),
{
    match command {
        UiMessage::RemoveLink(id) => match remove_link(state, id) {
            Some(id) => BridgeAction::DestroyLink(id),
            None => BridgeAction::Ignore,
        },
        UiMessage::AddLink { from_port, to_port } => BridgeAction::CreateLink(
            add_link(state, from_port, to_port),
        ),
        UiMessage::Exit => BridgeAction::Quit,
    }
}

/// A destroy request is issued only for a removal command whose id the directory
/// classifies as a link.
pub proof fn lemma_destroy_only_registered_links(
    dir: Map<u32, GlobalObject>,
    command: UiMessage,
    id: u32,
)
    ensures
        command_action(dir, command) == BridgeAction::DestroyLink(id) ==> command
            == UiMessage::RemoveLink(id) && is_link(dir, id),
{
}

/// Every create request that an edit command produces asks the server to let the link linger.
pub proof fn lemma_create_requests_linger(dir: Map<u32, GlobalObject>, command: UiMessage)
    ensures
        command_action(dir, command) matches BridgeAction::CreateLink(request) ==> request.linger,
{
}

} // verus!
