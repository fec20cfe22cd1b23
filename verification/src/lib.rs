//! The decision logic of a small display that shows habit notifications.
//!
//! The device keeps its clock in step with an NTP server, listens on a
//! WebSocket for notifications and shows the three most recent task names on
//! its screen. Everything that talks to hardware or to the network lives
//! outside this crate; what is here is the logic those loops run on, with its
//! contracts proved by Verus.
pub mod websocket_key;

pub use websocket_key::encode_websocket_key;
pub mod text;
pub mod notification;
pub mod error;
pub mod frames;
pub mod handshake;
pub mod endpoint;
pub mod ntp;
pub mod display;
