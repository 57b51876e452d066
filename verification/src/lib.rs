//! Asayake: a status bar for the komorebi tiling window manager.
//!
//! This crate holds the logic of Asayake as verified code: the monitor state that
//! the backend sends to the frontend, the layout of containers inside a workspace,
//! the CSS grid that the frontend draws them with, the icon pixels and colours, and
//! the decisions that the event loops take.
pub mod structs;
pub mod calc_layout;
pub mod text;
pub mod grid;
pub mod img;
pub mod icon;
pub mod backend;
pub mod frontend;
pub mod snapshot;
