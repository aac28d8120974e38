//! Conversions between the daemon's typed values and the primitive messages of
//! its management interface.

pub mod text;
pub mod net;
pub mod domain;
pub mod wire;
pub mod bridge;
