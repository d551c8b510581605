//! The core of an interactive command launcher: fuzzy ranking of aliases,
//! the session state machine, and the parsing a launch needs.

pub mod app;
pub mod config;
pub mod event;
pub mod launch;
pub mod ranking;
pub mod session;
pub mod text;
