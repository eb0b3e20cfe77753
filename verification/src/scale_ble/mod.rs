//! The Bluetooth scale: what is known of it and every decision about it.
//!
//! The radio itself is driven from outside: these functions say what to do and take what came of
//! it.
pub mod discovery;
pub mod discovery_laws;
pub mod listing_laws;
pub mod nimble;
pub mod run_laws;
pub mod runtime;
pub mod types;
pub mod watchdog;
pub mod worker;
