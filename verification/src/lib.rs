//! SNMP notifications.
pub mod ber;
pub mod config;
pub mod display;
pub mod encode;
pub mod enrich;
pub mod error;
pub mod event;
pub mod internal_events;
pub mod laws;
pub mod mib;
pub mod model;
pub mod notification;
pub mod raw;
pub mod response;
pub mod source;
pub mod text;
pub mod tree;
pub mod varbind;
pub mod wire;
