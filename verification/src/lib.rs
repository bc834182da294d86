//! A directory-watching file organizer: snapshots of a directory tree are
//! diffed into change events, events are routed through glob rules, matched
//! files are relocated, and a self-update protocol keeps the binary current.
//!
//! Everything here is pure logic over plain values; the surrounding process
//! (filesystem walks, timers, network fetches) hands values in and out.

pub mod cli;
pub mod config;
pub mod dispatch;
pub mod pattern;
pub mod relocate;
pub mod text;
pub mod updater;
pub mod watcher;
