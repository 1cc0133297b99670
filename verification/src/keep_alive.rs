//! Keep-alive pings: the client sends `PING` datagrams, and the server records the
//! time of each ping from a registered client.
use vstd::prelude::*;
use crate::address::SocketAddress;
use crate::registry::{ClientRegistry, ClientInfo};

verus! {

/// The bytes of a ping: `PING` in ASCII.
pub open spec fn ping_bytes() -> Seq<u8> {
    seq![0x50u8, 0x49u8, 0x4eu8, 0x47u8]
}

/// The datagram that a client sends to keep its stream alive.
pub fn ping_message() -> (m: Vec<u8>)
    ensures
        m@ == ping_bytes(),
{
    let mut m: Vec<u8> = Vec::new();
    m.push(0x50u8);
    m.push(0x49u8);
    m.push(0x4eu8);
    m.push(0x47u8);
    assert(m@ =~= ping_bytes());
    m
}

/// Whether a datagram is a ping.
pub fn is_ping(datagram: &[u8]) -> (b: bool)
    ensures
        b == (datagram@ == ping_bytes()),
{
    if datagram.len() != 4 {
        return false;
    }
    let b = datagram[0] == 0x50u8 && datagram[1] == 0x49u8 && datagram[2] == 0x4eu8 && datagram[3]
        == 0x47u8;
    if b {
        assert(datagram@ =~= ping_bytes());
    }
    b
}

/// What the server did with a datagram on its ping socket.
pub enum PingOutcome {
    /// A ping from a registered client: its ping time was updated.
    Updated,
    /// A ping from an address that is not registered.
    UnknownClient,
    /// Not a ping.
    NotPing,
}

/// Handles a datagram that arrived from `src` at `now` on the server's ping socket.
pub fn handle_ping(registry: &mut ClientRegistry, datagram: &[u8], src: SocketAddress, now: u64) -> (r: PingOutcome)
    ensures
        datagram@ != ping_bytes() ==> r is NotPing && final(registry).view() == old(registry).view(),
        datagram@ == ping_bytes() && !old(registry).view().dom().contains(src) ==> r is UnknownClient
            && final(registry).view() == old(registry).view(),
        datagram@ == ping_bytes() && old(registry).view().dom().contains(src) ==> r is Updated
            && final(registry).view() == old(registry).view().insert(
            src,
            ClientInfo { last_ping: now, ..old(registry).view()[src] },
        ),
{
    if !is_ping(datagram) {
        return PingOutcome::NotPing;
    }
    match registry.get_mut(&src) {
        Some(client) => {
            client.update_ping(now);
            PingOutcome::Updated
        },
        None => PingOutcome::UnknownClient,
    }
}

} // verus!
