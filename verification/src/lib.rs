//! Verified core of a terminal emulator, multiplexer and connection manager.

pub mod assets;
pub mod config;
pub mod controller;
pub mod editor;
pub mod error;
pub mod file_browser;
pub mod ids;
pub mod image_state;
pub mod keybindings;
pub mod keys;
pub mod known_hosts;
pub mod multiplexer;
pub mod pane;
pub mod panels;
pub mod platform;
pub mod render_model;
pub mod screen;
pub mod selection;
pub mod serial;
pub mod session;
pub mod ssh;
pub mod status;
pub mod state;
pub mod terminal;
pub mod terminfo;
pub mod text;
pub mod theme;
pub mod theme_catalog;
pub mod vte_processor;
