//! A driver-level protocol layer for ESP8266 WiFi modules driven over a
//! serial line with AT commands: typed commands with their exact wire
//! encoding, decoders for the module's replies, and a framer that cuts
//! incoming network data out of the stream of unsolicited notifications.
pub mod buffers;
pub mod commands;
pub mod error;
pub mod link;
pub mod text;
pub mod types;
