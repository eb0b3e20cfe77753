//! Wi-Fi provisioning and the web interface: what is asked, what is stored and what is answered.
//!
//! Sockets, the HTTP server and the storage are driven from outside.
pub mod captive;
pub mod form_laws;
pub mod http;
pub mod json_laws;
pub mod json_reading;
pub mod nvs;
pub mod portal_laws;
pub mod progress;
pub mod settings_laws;
pub mod station;
