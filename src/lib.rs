//! Per-connection processing core of a syslog-to-broker forwarding daemon:
//! structured values and their deep merge, rule matching with named
//! captures, and the action chain that decides what gets published.

pub mod value;
pub mod merge;
pub mod codec;
pub mod message;
pub mod context;
pub mod rules;
pub mod pipeline;
