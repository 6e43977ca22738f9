//! Planning and text logic of a Linux backup and restore tool: configuration
//! parsing, change manifests, command construction and restore selection.

pub mod adb;
pub mod backup;
pub mod config;
pub mod keymap;
pub mod manifest;
pub mod order;
pub mod path;
pub mod restore;
pub mod text;
pub mod util;
