//! Verified core of a bot that relays a Minecraft server's log to a chat
//! channel and chat messages back to the server.
pub mod commands;
pub mod config;
pub mod decimal;
pub mod log_line;
pub mod pattern;
pub mod rcon;
pub mod tail;
pub mod text;
