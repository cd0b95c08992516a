//! A LAN peer-discovery-and-relay engine: subnet scanning, ping/pong
//! liveness classification, message send/receive/broadcast with a
//! bounded working set over an append-only log, token-based device
//! authorization, a wire codec for durable message rows, an event bus
//! for live subscribers, and the lifecycle controller that owns the
//! network listener. Every function here carries its contract; the
//! runtime around it (sockets, HTTP, the database file) lives outside.

pub mod auth;
pub mod bus;
pub mod codec;
pub mod lifecycle;
pub mod logging;
pub mod platform;
pub mod prober;
pub mod relay;
pub mod scanner;
pub mod state;
pub mod store;
pub mod strutil;
pub mod types;
pub mod whoami;

use vstd::prelude::*;

verus! {

/// An IPv4 address, held as its four octets.
#[derive(Clone, Copy, Debug, PartialEq, Eq, Structural)]
pub struct Ipv4 {
    pub a: u8,
    pub b: u8,
    pub c: u8,
    pub d: u8,
}

impl Ipv4 {
    /// Two addresses lie in the same /24 subnet when their first three
    /// octets agree.
    pub open spec fn same_subnet(self, other: Ipv4) -> bool {
        self.a == other.a && self.b == other.b && self.c == other.c
    }

    pub fn new(a: u8, b: u8, c: u8, d: u8) -> (r: Ipv4)
        ensures
            r == (Ipv4 { a, b, c, d }),
    {
        Ipv4 { a, b, c, d }
    }
}

} // verus!
