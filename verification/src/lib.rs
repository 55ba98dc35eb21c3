//! Verified core of the webgpui UI toolkit: widget state machines, focus
//! traversal, the arena node tree, the legacy compat layer, render-graph
//! ordering and the small value types shared by the renderer back ends.

pub mod app;
pub mod batch;
pub mod compat;
pub mod demo;
pub mod devtools;
pub mod graph;
pub mod input;
pub mod layout;
pub mod platform;
pub mod render;
pub mod text;
pub mod tree;
pub mod widget;

pub use widget::{Button, NodeRole, WidgetState, FOCUS_RING_WIDTH};
