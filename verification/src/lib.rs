//! A peer-to-peer LAN chat node: address handling, a broadcast discovery
//! protocol, a registry of live peer links, newline-delimited wire framing,
//! best-effort broadcast accounting, and the controller state machine that
//! coordinates them — together with the payload types of a small companion
//! authentication API. All I/O lives outside this crate; these modules hold
//! the decisions and data, with their behaviour stated in contracts.

pub mod address;
pub mod auth;
pub mod broadcast;
pub mod controller;
pub mod dec;
pub mod discovery;
pub mod errors;
pub mod link;
pub mod registry;
pub mod wire;
