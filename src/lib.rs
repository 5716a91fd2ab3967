//! A node-graph engine for a network topology view: builds a tree of devices and
//! clients, lays it out in a bounded model space, and handles pan, zoom,
//! selection and dragging.
pub mod dashboard;
pub mod format;
pub mod geometry;
pub mod graph;
pub mod layout;
pub mod node;
pub mod render;
pub mod topology_view;
