//! Directional focus navigation across three nested grids: the panes of a
//! local terminal multiplexer, the panes of a remote multiplexer reached
//! through a peer socket, and the windows of a tiling window manager.
//!
//! The library decides; it performs no input or output itself. A caller
//! carries out each [`resolver::Action`] and reports what happened as an
//! [`resolver::Event`].

pub mod direction;
pub mod decimal;
pub mod error;
pub mod fields;
pub mod ancestry;
pub mod registry;
pub mod protocol;
pub mod local;
pub mod resolver;
