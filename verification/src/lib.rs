//! A control-plane client for Linux CAN network interfaces, speaking the
//! kernel's route-netlink protocol.
//!
//! The library builds the request frames (TLV attribute trees wrapped in
//! netlink headers) for every interface operation, and parses the kernel's
//! replies back into typed values.  Sending a frame and receiving the reply
//! is the caller's business: every function here maps plain bytes and
//! values to plain bytes and values.

pub mod codec;
pub mod err;
pub mod iface;
pub mod laws;
pub mod link;
pub mod reply;
pub mod timing;

pub use codec::Attribute;
pub use err::NlError;
pub use iface::{CanInterface, Details, Mtu};
pub use link::{IflaCan, LinkMessage};
pub use timing::can_bittiming;
