//! The protocol logic of an ADB daemon: the wire format, the sockets that are
//! multiplexed over one device connection, the smart-socket services, port
//! forwarding and the bookkeeping of devices.

pub mod auth;
pub mod backend;
pub mod banner;
pub mod config;
pub mod connection;
pub mod daemon;
pub mod discovery;
pub mod error;
pub mod forward;
pub mod le;
pub mod log;
pub mod message;
pub mod number;
pub mod proto;
pub mod protocol;
pub mod pubkey;
pub mod reverse;
pub mod services;
pub mod shim;
pub mod smart_socket;
pub mod socket;
pub mod tables;
pub mod text;
pub mod transport;
pub mod usb;
