//! Verified core of an ambient-light controller: screen colour averaging,
//! the Hue entertainment stream framing, and the configuration store.
pub mod color;
pub mod frame;
pub mod text;
pub mod settings;
pub mod hue;
pub mod session;
