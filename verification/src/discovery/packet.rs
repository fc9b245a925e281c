//! The discovery packet: unauthenticated hints in one datagram.

use vstd::prelude::*;

verus! {

#[derive(Debug, Clone)]
pub struct DiscoveryPacket {
    /// The version of the packet.
    pub v: u8,
    /// The device id of the sender.
    pub id: String,
    /// The port of the sender's transfer listener.
    pub port: u16,
    /// The name of the device, at most 63 bytes of it.
    pub name: String,
    /// Whether the sender is visible; if not, peers forget it.
    pub disc: bool,
    /// Whether the sender wants an immediate reply.
    pub req: bool,
    /// The port of the browser share server while a share is live.
    pub http: Option<u16>,
}

} // verus!
