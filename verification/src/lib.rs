//! A distance-vector routing engine for IPv4 broadcast domains.
//!
//! The engine keeps a routing information base keyed by network text,
//! learns minimum-hop paths from the advertisements of its neighbours,
//! ages out what is no longer heard of, and says which kernel routes to
//! replace or delete. Sockets, the clock and the kernel are left to the
//! caller: every function here takes and returns plain values.
//!
//! - [`engine`] holds the protocol engine and [`model`] its state machine;
//! - [`rib`] holds the routing information base and [`table`] its
//!   operations as functions on sequences of routes;
//! - [`laws`] states what holds of them whatever is heard;
//! - [`route`], [`message`], [`neighbor`], [`kernel`], [`iface`],
//!   [`exclusion`] and [`config`] hold the values that pass between the
//!   engine and its caller;
//! - [`addr`] and [`text`] write addresses and numbers, and [`console`]
//!   serves the operator's menu.

pub mod addr;
pub mod config;
pub mod console;
pub mod engine;
pub mod exclusion;
pub mod iface;
pub mod kernel;
pub mod laws;
pub mod message;
pub mod model;
pub mod neighbor;
pub mod rib;
pub mod route;
pub mod table;
pub mod text;
