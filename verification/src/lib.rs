//! Core logic of a terminal peer-to-peer chat client.
pub mod args;
pub mod chat;
pub mod effect;
pub mod entity;
pub mod error;
pub mod hat;
pub mod input_message;
pub mod key_context;
pub mod keybindings;
pub mod keystroke;
pub mod pane;
pub mod path;
pub mod state;
pub mod subscription;
pub mod text;
pub mod ui;
pub mod window;
