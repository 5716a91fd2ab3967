//! The graph's vertex type and its classification.
use vstd::prelude::*;

verus! {

#[derive(Clone, Copy, Debug, PartialEq, Eq, Structural)]
pub enum DeviceType {
    AccessPoint,
    Switch,
    Gateway,
    Other,
}

#[derive(Clone, Copy, Debug, PartialEq, Eq, Structural)]
pub enum ClientType {
    Wireless,
    Wired,
    Vpn,
}

/// Whether a device is reachable, as far as the topology view cares.
#[derive(Clone, Copy, Debug, PartialEq, Eq, Structural)]
pub enum DeviceState {
    Online,
    Offline,
    Other,
}

#[derive(Clone, Copy, Debug, PartialEq, Eq, Structural)]
pub enum NodeType {
    Device { device_type: DeviceType, state: DeviceState },
    Client { client_type: ClientType },
}

/// Colours of the drawing primitives.
#[derive(Clone, Copy, Debug, PartialEq, Eq, Structural)]
pub enum Color {
    Green,
    Red,
    Yellow,
    Blue,
    Cyan,
    Gray,
    White,
}

/// The marker drawn for a node.
#[derive(Clone, Copy, Debug, PartialEq, Eq, Structural)]
pub enum Shape {
    AccessPoint,
    Switch,
    Gateway,
    Device,
    Wireless,
    Wired,
    Vpn,
}

/// One device or client. Positions are in model space (thousandths of a unit);
/// `children` is derived from the `parent_id` of the other nodes of the set.
#[derive(Clone, Debug)]
pub struct NetworkNode {
    pub id: u128,
    pub name: String,
    pub node_type: NodeType,
    pub x: i64,
    pub y: i64,
    pub parent_id: Option<u128>,
    pub children: Vec<u128>,
}

pub open spec fn state_color(state: DeviceState) -> Color {
    match state {
        DeviceState::Online => Color::Green,
        DeviceState::Offline => Color::Red,
        DeviceState::Other => Color::Yellow,
    }
}

/// Marker shape and colour of a node of the given kind.
pub open spec fn style_of(t: NodeType) -> (Shape, Color) {
    match t {
        NodeType::Device { device_type, state } => {
            let shape = match device_type {
                DeviceType::AccessPoint => Shape::AccessPoint,
                DeviceType::Switch => Shape::Switch,
                DeviceType::Gateway => Shape::Gateway,
                DeviceType::Other => Shape::Device,
            };
            (shape, state_color(state))
        },
        NodeType::Client { client_type } => match client_type {
            ClientType::Wireless => (Shape::Wireless, Color::Yellow),
            ClientType::Wired => (Shape::Wired, Color::Blue),
            ClientType::Vpn => (Shape::Vpn, Color::Cyan),
        },
    }
}

/// Colour of the edge from a node to its parent, keyed by the child's kind.
pub open spec fn edge_color(t: NodeType) -> Color {
    match t {
        NodeType::Client { client_type: ClientType::Wireless } => Color::Yellow,
        NodeType::Client { client_type: ClientType::Wired } => Color::Blue,
        _ => Color::Gray,
    }
}

impl NetworkNode {
    pub fn get_style(&self) -> (r: (Shape, Color))
        ensures
            r == style_of(self.node_type),
    {
        match self.node_type {
            NodeType::Device { device_type, state } => {
                let color = match state {
                    DeviceState::Online => Color::Green,
                    DeviceState::Offline => Color::Red,
                    DeviceState::Other => Color::Yellow,
                };
                let shape = match device_type {
                    DeviceType::AccessPoint => Shape::AccessPoint,
                    DeviceType::Switch => Shape::Switch,
                    DeviceType::Gateway => Shape::Gateway,
                    DeviceType::Other => Shape::Device,
                };
                (shape, color)
            },
            NodeType::Client { client_type } => match client_type {
                ClientType::Wireless => (Shape::Wireless, Color::Yellow),
                ClientType::Wired => (Shape::Wired, Color::Blue),
                ClientType::Vpn => (Shape::Vpn, Color::Cyan),
            },
        }
    }

    pub fn edge_color(&self) -> (r: Color)
        ensures
            r == edge_color(self.node_type),
    {
        match self.node_type {
            NodeType::Client { client_type: ClientType::Wireless } => Color::Yellow,
            NodeType::Client { client_type: ClientType::Wired } => Color::Blue,
            _ => Color::Gray,
        }
    }
}

} // verus!
