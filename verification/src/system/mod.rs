//! The host system: the commands the tool relies on and the platform it
//! runs on.

pub mod dependencies;
pub mod platform;
