//! A small command-tag manager: named shell commands kept in a
//! configuration, a command-line front end and a terminal manager,
//! with the configuration rules and the manager's state machine verified.

pub mod app;
pub mod config;
pub mod cli;
pub mod error;
pub mod laws;
pub mod manager;
pub mod text;
pub mod ui;
