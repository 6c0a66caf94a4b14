//! Verified core of an SPC alarm panel to MQTT bridge.

pub mod bridge;
pub mod client;
pub mod config;
pub mod discovery;
pub mod html;
pub mod json;
pub mod model;
pub mod parser;
pub mod text;
pub mod topics;
