//! The logic of an IRC client that searches a channel for books and receives them over
//! DCC: what the lines of the protocol mean, what the commands of the user ask for, how a
//! transfer proceeds and what the panes of the terminal show.
pub mod casing;
pub mod client;
pub mod clock;
pub mod commands;
pub mod config;
pub mod dcc;
pub mod download;
pub mod error;
pub mod irc;
pub mod logger;
pub mod net;
pub mod number;
pub mod pattern;
pub mod percent;
pub mod session;
pub mod text;
pub mod tui;
pub mod ui;
