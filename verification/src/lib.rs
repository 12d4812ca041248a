//! Verified core of the horchd wakeword daemon: Wyoming frame codec,
//! detector state machine, audio framing, configuration rules and the
//! name / path handling shared by the daemon and its clients.

pub mod text;
pub mod names;
pub mod wire;
pub mod detector;
pub mod framing;
pub mod stats;
pub mod picker;
pub mod paths;
pub mod config;
pub mod reload;
pub mod events;
pub mod info;
pub mod source;
pub mod session;
pub mod training;
pub mod import;
pub mod uri;
pub mod inference;
pub mod pipeline;
pub mod persist;
pub mod service;
pub mod zeroconf;
pub mod sockaddr;
