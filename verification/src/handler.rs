//! The decisions of one client's stream: each round of quotes is filtered to the
//! client's tickers and sent, failures are counted, and the stream stops when the
//! client stops pinging, the generator goes away, or too many sends fail in a row.
use vstd::prelude::*;
use crate::address::SocketAddress;
use crate::quotes::{TickerPrices, QuoteView, quote_views, wanted, filter_prices};
use crate::registry::{ClientRegistry, elapsed};
use crate::text::views;
use crate::wire::{encode_quotes, serialize_quotes};

verus! {

/// How long a client may go without a ping before its stream stops, in milliseconds.
pub const PING_TIMEOUT_MS: u64 = 5000;

/// How long the stream waits for a round of quotes before it checks the client's
/// pings, in milliseconds.
pub const GENERATION_MAX_TIMEOUT_MS: u64 = 500;

/// How many failures in a row the stream tolerates; one more stops it.
pub const MAX_FAILED: u32 = 10;

/// Whether the client at `addr` has stopped pinging: it is not registered, or its
/// last ping is more than `timeout` milliseconds before `now`.
pub open spec fn timed_out(registry: Map<SocketAddress, crate::registry::ClientInfo>, addr: SocketAddress, timeout: u64, now: u64) -> bool {
    if registry.dom().contains(addr) {
        elapsed(registry[addr].last_ping, now) > timeout
    } else {
        true
    }
}

/// Whether the client at `addr` has stopped pinging.
pub fn client_timed_out(registry: &ClientRegistry, addr: &SocketAddress, timeout: u64, now: u64) -> (b: bool)
    ensures
        b == timed_out(registry.view(), *addr, timeout, now),
{
    match registry.get(addr) {
        Some(c) => c.is_expired(timeout, now),
        None => true,
    }
}

/// The number of failures that a stream counts after `outcomes`, a run of send
/// outcomes from `start`: a success clears it, a failure adds one.
pub open spec fn failures_after(start: nat, outcomes: Seq<bool>) -> nat
    decreases outcomes.len(),
{
    if outcomes.len() == 0 {
        start
    } else if outcomes.last() {
        0
    } else {
        failures_after(start, outcomes.drop_last()) + 1
    }
}

/// The state of one client's stream: where it goes, which tickers it carries, and
/// how many failures have happened since the last successful send.
pub struct StreamSession {
    pub addr: SocketAddress,
    pub tickers: Vec<String>,
    pub failed_count: u32,
}

/// The quotes of a round that a client with `tickers` receives.
pub open spec fn client_share(prices: Seq<QuoteView>, tickers: Seq<Seq<char>>) -> Seq<QuoteView> {
    prices.filter(|q: QuoteView| wanted(tickers, q))
}

impl StreamSession {
    /// A fresh stream to `addr` carrying `tickers`.
    pub fn new(addr: SocketAddress, tickers: Vec<String>) -> (s: Self)
        ensures
            s.addr == addr,
            s.tickers == tickers,
            s.failed_count == 0,
    {
        StreamSession { addr, tickers, failed_count: 0 }
    }

    /// Whether so many failures have happened in a row that the stream stops.
    pub fn give_up(&self) -> (b: bool)
        ensures
            b == (self.failed_count > MAX_FAILED),
    {
        self.failed_count > MAX_FAILED
    }

    /// Handles a round of quotes: the datagram to send, or none when the round holds
    /// none of the client's tickers.
    pub fn on_round(&mut self, prices: TickerPrices) -> (r: Option<Vec<u8>>)
        requires
            old(self).failed_count <= MAX_FAILED,
        ensures
            final(self).addr == old(self).addr,
            final(self).tickers == old(self).tickers,
            final(self).failed_count == old(self).failed_count,
            client_share(quote_views(prices@), views(old(self).tickers@)).len() == 0 ==> r is None,
            client_share(quote_views(prices@), views(old(self).tickers@)).len() > 0 ==> (r matches Some(b)
                && b@ == encode_quotes(client_share(quote_views(prices@), views(old(self).tickers@)))),
    {
        let filtered = filter_prices(prices, &self.tickers);
        if filtered.len() == 0 {
            return None;
        }
        match serialize_quotes(filtered) {
            Ok(b) => Some(b),
            Err(_) => {
                self.failed_count = self.failed_count + 1;
                None
            },
        }
    }

    /// Records the outcome of a send: success clears the count of failures, a
    /// failure adds one.
    pub fn on_sent(&mut self, sent: bool)
        requires
            old(self).failed_count <= MAX_FAILED,
        ensures
            final(self).addr == old(self).addr,
            final(self).tickers == old(self).tickers,
            final(self).failed_count == failures_after(old(self).failed_count as nat, seq![sent]),
    {
        assert(seq![sent].drop_last() =~= Seq::<bool>::empty());
        assert(seq![sent].last() == sent);
        assert(failures_after(old(self).failed_count as nat, Seq::<bool>::empty())
            == old(self).failed_count);
        if sent {
            self.failed_count = 0;
        } else {
            self.failed_count = self.failed_count + 1;
        }
    }

    /// Whether the stream stops after a wait for quotes ended without a round:
    /// it stops when the client has stopped pinging at `now`.
    pub fn on_timeout(&self, registry: &ClientRegistry, now: u64) -> (stop: bool)
        ensures
            stop == timed_out(registry.view(), self.addr, PING_TIMEOUT_MS, now),
    {
        client_timed_out(registry, &self.addr, PING_TIMEOUT_MS, now)
    }
}

} // verus!
