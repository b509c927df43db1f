//! Verified core of a chat-driven shared shopping list.
//!
//! The crate models the three durable stores of the application (items,
//! render pointers, delete sessions) as verified in-memory structures, and
//! gives the presentation and workflow logic exact contracts.  All chat
//! transport, persistence and AI plumbing stays outside; the functions here
//! take plain values and return plain values plus descriptions of the
//! outbound message operations to perform.

pub mod api;
pub mod assoc;
pub mod commands;
pub mod config;
pub mod idset;
pub mod items;
pub mod messages;
pub mod numtext;
pub mod pointer;
pub mod present;
pub mod ratelimit;
pub mod service;
pub mod session;
pub mod strutil;
pub mod sysinfo;
pub mod textparse;
pub mod tokens;
pub mod types;
pub mod voice;
pub mod workflow;
