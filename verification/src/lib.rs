//! Message building, text conversion and request handling for a daemon
//! that relays configuration-change and backup-failure alerts.

pub mod ansi;
pub mod daemon;
pub mod discord;
pub mod git;
pub mod mail;
pub mod request;
pub mod text;
