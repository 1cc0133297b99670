//! The client's side of the protocol: the command that asks for a stream, and the
//! handling of each datagram that arrives on its UDP socket.
use vstd::prelude::*;
use crate::address::SocketAddress;
use crate::quotes::{StockQuote, QuoteView, quote_views};
use crate::text::{string_push};
use crate::wire::{encode_quotes, encodable, deserialize_quotes};

verus! {

/// The command that asks the server for a stream of `tickers` (comma-separated)
/// to the UDP address `udp_addr` (`ip:port`), line end included.
pub open spec fn stream_command_text(udp_addr: Seq<char>, tickers: Seq<char>) -> Seq<char> {
    "STREAM udp://"@ + udp_addr + seq![' '] + tickers + seq!['\n']
}

/// The command that asks the server for a stream.
pub fn stream_command(udp_addr: &str, tickers: &str) -> (r: String)
    ensures
        r@ == stream_command_text(udp_addr@, tickers@),
{
    let mut r = String::from_str("STREAM udp://");
    r.append(udp_addr);
    string_push(&mut r, ' ');
    r.append(tickers);
    string_push(&mut r, '\n');
    r
}

/// What the client's receiver remembers between datagrams: whether it has already
/// reported the server's address, to which the keep-alive pings go.
pub struct ReceiverState {
    pub addr_sent: bool,
}

/// What to do with one datagram.
pub struct Received {
    /// The server's address, to report once: with the first datagram.
    pub report: Option<SocketAddress>,
    /// The round of quotes that the datagram holds, if it holds one.
    pub quotes: Option<Vec<StockQuote>>,
}

impl ReceiverState {
    /// A receiver that has not heard from the server yet.
    pub fn new() -> (s: Self)
        ensures
            !s.addr_sent,
    {
        ReceiverState { addr_sent: false }
    }

    /// Handles a datagram `datagram` that arrived from `src`.
    pub fn on_datagram(&mut self, datagram: &[u8], src: SocketAddress) -> (r: Received)
        ensures
            final(self).addr_sent,
            r.report == (if old(self).addr_sent {
                None
            } else {
                Some(src)
            }),
            r.quotes matches Some(v) ==> encodable(quote_views(v@)) && exists|rest: Seq<u8>|
                datagram@ == #[trigger] (encode_quotes(quote_views(v@)) + rest),
            (exists|qs: Seq<QuoteView>, rest: Seq<u8>|
                datagram@ == #[trigger] (encode_quotes(qs) + rest)) <==> r.quotes is Some,
    {
        let report = if self.addr_sent {
            None
        } else {
            Some(src)
        };
        self.addr_sent = true;
        let quotes = match deserialize_quotes(datagram) {
            Ok(v) => Some(v),
            Err(_) => None,
        };
        Received { report, quotes }
    }
}

} // verus!
