//! Runs scripted SSH sessions on many nodes: the configuration and how each
//! node's session is planned, the event-driven course of a session (login
//! scripts, jump hosts, framing commands and extracting their output), and
//! the interactive mode's commands.

pub mod config;
pub mod frame;
pub mod interactive;
pub mod line_buffer;
pub mod pieces;
pub mod plan;
pub mod session;
pub mod session_laws;
pub mod special;
pub mod terminal;
pub mod text;
pub mod wait;
