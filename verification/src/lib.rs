//! Library core of an interactive MQTT message analyzer.
//!
//! The crate models the subscription registry, the command engine that keeps
//! the registry consistent with the broker client, the terminal navigation
//! state machine, and the payload formatting rules.

pub mod app;
pub mod cli;
pub mod engine;
pub mod format;
pub mod navigation;
pub mod notification;
pub mod retained;
pub mod ring;
pub mod style;
pub mod subscriptions;
pub mod tabs;
pub mod topic;
