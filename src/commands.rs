//! Collection of commands (requests and responses) that can be used for
//! communicating with the ESP8266 device.
pub mod responses;
pub mod requests;
pub mod urcs;
