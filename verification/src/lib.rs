//! Core of APortal, a tool that shows regions of the screen, rearranged, in
//! transparent windows over the screen.
//!
//! - [`config`], [`compact_yaml`]: settings, region configs and their files;
//!   [`opacity`] is the type of their opacities
//! - [`capture`], [`render`], [`custom_ui`]: from captured frames to the pixels of
//!   a window, with [`pixels`], [`color`], [`picture`] and [`zorder`]
//! - [`session`], [`tray`], [`input`]: which configs are shown, the menu, and the
//!   switch between keyboard and controller
//! - [`editor`]: the editor of configs
//! - [`i18n`], [`logtext`], [`icon`]: texts of the UI, the log file, and the icon
//! - [`text`], [`lines`], [`decimal`], [`names`], [`num`]: what these are built on

pub mod capture;
pub mod color;
pub mod compact_yaml;
pub mod config;
pub mod custom_ui;
pub mod decimal;
pub mod editor;
pub mod i18n;
pub mod icon;
pub mod input;
pub mod lines;
pub mod logtext;
pub mod names;
pub mod num;
pub mod opacity;
pub mod picture;
pub mod pixels;
pub mod render;
pub mod session;
pub mod text;
pub mod tray;
pub mod zorder;
