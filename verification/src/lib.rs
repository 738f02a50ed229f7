//! Building blocks of a stateless TCP service scanner over AF_XDP: the packet
//! codec and SYN cookie, the range algebra, the ring cursors and frame layout,
//! the responder's connection state machine and the status-ping protocol.

pub mod config;
pub mod controller;
pub mod database;
pub mod exclude;
pub mod net;
pub mod xdp;
