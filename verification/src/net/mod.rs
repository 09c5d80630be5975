//! The userspace network of a lab: frames, the services of a segment's
//! gateway, and the learning switch behind it.

pub mod addr;
pub mod cidr;
pub mod dhcp;
pub mod dns;
pub mod frame;
pub mod framing;
pub mod gateway;
pub mod engine;
pub mod rules;
pub mod switch;
pub mod wire;
