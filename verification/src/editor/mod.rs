//! Visual config editor.

pub mod arranging;
pub mod canvas_view;
pub mod common;
pub mod convert;
pub mod draw;
pub mod events;
pub mod keys;
pub mod panel;
pub mod panel_view;
pub mod snap;
pub mod state;
pub mod ui;
pub mod window;
