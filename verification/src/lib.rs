//! The state, rules and layout of a terminal IRC client, without its terminal
//! and its sockets.
//!
//! Conversations and their histories know nothing of the screen. Wire rules,
//! connection lifecycle, coordination and presentation are separate modules;
//! the program around the library reads keys and sockets and draws.

pub mod text;
pub mod sequence;
pub mod columns;
pub mod model;
pub mod history;
pub mod command;
pub mod protocol;
pub mod config;
pub mod connection;
pub mod application;
pub mod message;
pub mod irc;
pub mod layout;
pub mod app;
pub mod ui;
pub mod mouse;
pub mod tui;
