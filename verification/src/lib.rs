//! Widgets, layout state and dock/document workspaces for CAD-style desktop
//! applications built on egui and egui_tiles.
//!
//! This crate holds the state and the decision logic of the widgets; drawing
//! them with egui lives beside it.

pub mod color;
pub mod docking;
pub mod feedback;
pub mod messages;
pub mod panels;
pub mod shell;
pub mod text;
pub mod theme;

pub mod tiles;
pub mod trees;
pub mod workspace;
