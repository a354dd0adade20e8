//! The two closed message sets that connect the server-facing loop and the UI loop.
use vstd::prelude::*;

verus! {

/// Media kind of a server node, read from its class property.
#[derive(Debug, Copy, Clone, PartialEq, Eq, Structural)]
pub enum MediaType {
    Audio,
    Video,
    Midi,
}

/// Direction of a port.
#[derive(Debug, Copy, Clone, PartialEq, Eq, Structural)]
pub enum PortType {
    Input,
    Output,
    Unknown,
}

/// Events sent from the server-facing loop to the UI loop.
#[derive(Debug, PartialEq, Eq)]
pub enum PipewireMessage {
    NodeAdded {
        id: u32,
        name: String,
        description: Option<String>,
        media_type: Option<MediaType>,
    },
    PortAdded {
        node_name: String,
        node_id: u32,
        id: u32,
        name: String,
        port_type: PortType,
    },
    LinkAdded {
        id: u32,
        from_node_name: String,
        to_node_name: String,
        from_port: u32,
        to_port: u32,
    },
    LinkStateChanged {
        id: u32,
        active: bool,
    },
    NodeRemoved {
        name: String,
        id: u32,
    },
    PortRemoved {
        node_name: String,
        node_id: u32,
        id: u32,
    },
    LinkRemoved {
        id: u32,
    },
}

/// Edit commands sent from the UI loop to the server-facing loop.
#[derive(Debug, Clone, Copy, PartialEq, Eq, Structural)]
pub enum UiMessage {
    RemoveLink(u32),
    AddLink { from_port: u32, to_port: u32 },
    Exit,
}

/// A link gesture reported by the canvas.
#[derive(Debug, Clone, Copy, PartialEq, Eq, Structural)]
pub enum LinkUpdate {
    Created { from_port: u32, to_port: u32, from_node: u32, to_node: u32 },
    Removed(u32),
}

impl LinkUpdate {
    /// The gesture of one frame, from a destroyed link and a created link given as
    /// `(from_port, from_node, to_port, to_node)`: a destroyed link wins.
    pub fn from_gestures(destroyed: Option<u32>, created: Option<(u32, u32, u32, u32)>) -> (r: Option<LinkUpdate>)
        ensures
            r == match destroyed {
                Some(id) => Some(LinkUpdate::Removed(id)),
                None => match created {
                    Some((from_port, from_node, to_port, to_node)) => Some(
                        LinkUpdate::Created { from_port, to_port, from_node, to_node },
                    ),
                    None => None,
                },
            },
    {
        match destroyed {
            Some(id) => Some(LinkUpdate::Removed(id)),
            None => match created {
                Some((from_port, from_node, to_port, to_node)) => Some(
                    LinkUpdate::Created { from_port, to_port, from_node, to_node },
                ),
                None => None,
            },
        }
    }

    /// The edit command that carries this gesture to the server-facing loop.
    pub fn to_command(self) -> (r: UiMessage)
        ensures
            match self {
                LinkUpdate::Created { from_port, to_port, .. } => r == (UiMessage::AddLink {
                    from_port,
                    to_port,
                }),
                LinkUpdate::Removed(id) => r == UiMessage::RemoveLink(id),
            },
    {
        match self {
            LinkUpdate::Created { from_port, to_port, .. } => UiMessage::AddLink { from_port, to_port },
            LinkUpdate::Removed(id) => UiMessage::RemoveLink(id),
        }
    }
}

} // verus!
