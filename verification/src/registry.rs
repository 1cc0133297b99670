//! The server's registry of streaming clients, keyed by their UDP address, with
//! the time of each client's last keep-alive ping.
use vstd::prelude::*;
use crate::address::SocketAddress;
use crate::quotes::{TickerPrices, duplicate_quotes, quote_views};

verus! {

#[verifier::external_type_specification]
#[verifier::external_body]
#[verifier::reject_recursive_types(T)]
pub struct ExSender<T>(std::sync::mpsc::Sender<T>);

#[verifier::external_type_specification]
#[verifier::external_body]
#[verifier::reject_recursive_types(T)]
pub struct ExSendError<T>(std::sync::mpsc::SendError<T>);

/// The channel on which a client's stream receives each round of quotes.
pub type QuoteSender = std::sync::mpsc::Sender<TickerPrices>;

/// Hands `copy`, a copy of the round `round`, to a client's channel.
/// Calls `Sender::send` with `copy`; `round` is not sent, it is what the caller must
/// show that `copy` equals, quote by quote. Whether the send succeeds depends on
/// whether the receiving end still exists, so the contract claims nothing of the
/// outcome.
#[verifier::external_body]
fn send_round(sender: &QuoteSender, round: &TickerPrices, copy: TickerPrices) -> (r: Result<
    (),
    std::sync::mpsc::SendError<TickerPrices>,
>)
    requires
        quote_views(copy@) == quote_views(round@),
{
    let _ = round;
    sender.send(copy)
}

/// The time that has passed from `from` to `now`, both in milliseconds; none when
/// `now` is earlier.
pub open spec fn elapsed(from: u64, now: u64) -> nat {
    if now >= from {
        (now - from) as nat
    } else {
        0
    }
}

/// One streaming client: its UDP address, the time of its last ping in
/// milliseconds, and the channel that feeds its stream.
pub struct ClientInfo {
    pub addr: SocketAddress,
    pub last_ping: u64,
    pub sender: QuoteSender,
}

impl ClientInfo {
    /// A client at `addr`, fed through `sender`, that pinged at `now`.
    pub fn new(addr: SocketAddress, sender: QuoteSender, now: u64) -> (c: Self)
        ensures
            c.addr == addr,
            c.sender == sender,
            c.last_ping == now,
    {
        ClientInfo { addr, last_ping: now, sender }
    }

    /// Records a ping at `now`.
    pub fn update_ping(&mut self, now: u64)
        ensures
            final(self).last_ping == now,
            final(self).addr == old(self).addr,
            final(self).sender == old(self).sender,
    {
        self.last_ping = now;
    }

    /// Whether more than `timeout` milliseconds have passed from the last ping to `now`.
    pub fn is_expired(&self, timeout: u64, now: u64) -> (b: bool)
        ensures
            b == (elapsed(self.last_ping, now) > timeout),
    {
        let passed: u64 = if now >= self.last_ping {
            now - self.last_ping
        } else {
            0
        };
        passed > timeout
    }
}

/// Why the registry refuses a change.
pub enum RegistryError {
    /// A client with this address is already registered.
    AlreadyExists(SocketAddress),
    /// No client with this address is registered.
    NotFound(SocketAddress),
    /// The channel of the client with this address is closed.
    ChannelClosed(SocketAddress),
}

/// The registry after an attempt to register `client`: unchanged when its address
/// is taken, else with `client` under its address.
pub open spec fn after_add(registry: Map<SocketAddress, ClientInfo>, client: ClientInfo) -> Map<
    SocketAddress,
    ClientInfo,
> {
    if registry.dom().contains(client.addr) {
        registry
    } else {
        registry.insert(client.addr, client)
    }
}

/// The registry after the removal of `addr`: without it, the rest unchanged.
pub open spec fn after_remove(registry: Map<SocketAddress, ClientInfo>, addr: SocketAddress) -> Map<
    SocketAddress,
    ClientInfo,
> {
    registry.remove(addr)
}

/// The registered clients, each under the address it was added with: the
/// addresses and the clients, position by position.
pub struct ClientRegistry {
    keys: Vec<SocketAddress>,
    clients: Vec<ClientInfo>,
}

/// The map from address to client that addresses and clients, position by
/// position, stand for when no address occurs twice.
pub open spec fn map_of(keys: Seq<SocketAddress>, clients: Seq<ClientInfo>) -> Map<SocketAddress, ClientInfo> {
    Map::new(|a: SocketAddress| keys.contains(a), |a: SocketAddress| clients[keys.index_of(a)])
}

/// Whether addresses and clients go together: as many of each, no address twice.
pub open spec fn paired(keys: Seq<SocketAddress>, clients: Seq<ClientInfo>) -> bool {
    keys.no_duplicates() && keys.len() == clients.len()
}

proof fn lemma_map_of_at(keys: Seq<SocketAddress>, clients: Seq<ClientInfo>, i: int)
    requires
        paired(keys, clients),
        0 <= i < keys.len(),
    ensures
        map_of(keys, clients).dom().contains(keys[i]),
        map_of(keys, clients)[keys[i]] == clients[i],
{
    assert(keys.contains(keys[i]));
    let j = keys.index_of(keys[i]);
    assert(keys[j] == keys[i]);
}

proof fn lemma_map_of_push(keys: Seq<SocketAddress>, clients: Seq<ClientInfo>, addr: SocketAddress, c: ClientInfo)
    requires
        paired(keys, clients),
        !keys.contains(addr),
    ensures
        paired(keys.push(addr), clients.push(c)),
        map_of(keys.push(addr), clients.push(c)) == map_of(keys, clients).insert(addr, c),
{
    let ks = keys.push(addr);
    let cs = clients.push(c);
    let m = map_of(keys, clients).insert(addr, c);
    assert(ks[ks.len() - 1] == addr);
    assert forall|a: SocketAddress|
        #![trigger map_of(ks, cs).dom().contains(a)]
        map_of(ks, cs).dom().contains(a) == m.dom().contains(a) by {
        if ks.contains(a) && a != addr {
            let k = choose|k: int| 0 <= k < ks.len() && ks[k] == a;
            assert(keys[k] == a);
        }
        if keys.contains(a) {
            let k = choose|k: int| 0 <= k < keys.len() && keys[k] == a;
            assert(ks[k] == a);
        }
    }
    assert forall|a: SocketAddress| map_of(ks, cs).dom().contains(a) implies map_of(ks, cs)[a]
        == m[a] by {
        let k = choose|k: int| 0 <= k < ks.len() && ks[k] == a;
        lemma_map_of_at(ks, cs, k);
        if a != addr {
            assert(keys[k] == a);
            lemma_map_of_at(keys, clients, k);
        }
    }
    assert(map_of(ks, cs) =~= m);
}

proof fn lemma_map_of_remove(keys: Seq<SocketAddress>, clients: Seq<ClientInfo>, i: int)
    requires
        paired(keys, clients),
        0 <= i < keys.len(),
    ensures
        paired(keys.remove(i), clients.remove(i)),
        map_of(keys.remove(i), clients.remove(i)) == map_of(keys, clients).remove(keys[i]),
{
    let ks = keys.remove(i);
    let cs = clients.remove(i);
    let addr = keys[i];
    let m = map_of(keys, clients).remove(addr);
    assert forall|p: int, q: int| 0 <= p < ks.len() && 0 <= q < ks.len() && p != q implies ks[p]
        != ks[q] by {
        let pp = if p < i { p } else { p + 1 };
        let qq = if q < i { q } else { q + 1 };
        assert(ks[p] == keys[pp]);
        assert(ks[q] == keys[qq]);
    }
    assert forall|a: SocketAddress|
        #![trigger map_of(ks, cs).dom().contains(a)]
        map_of(ks, cs).dom().contains(a) == m.dom().contains(a) by {
        if ks.contains(a) {
            let k = choose|k: int| 0 <= k < ks.len() && ks[k] == a;
            let kk = if k < i { k } else { k + 1 };
            assert(keys[kk] == a);
            assert(kk != i);
        }
        if a != addr && keys.contains(a) {
            let k = choose|k: int| 0 <= k < keys.len() && keys[k] == a;
            assert(k != i);
            let kk = if k < i { k } else { k - 1 };
            assert(ks[kk] == a);
        }
    }
    assert forall|a: SocketAddress| map_of(ks, cs).dom().contains(a) implies map_of(ks, cs)[a]
        == m[a] by {
        let k = choose|k: int| 0 <= k < ks.len() && ks[k] == a;
        lemma_map_of_at(ks, cs, k);
        let kk = if k < i { k } else { k + 1 };
        assert(keys[kk] == a);
        assert(clients[kk] == cs[k]);
        lemma_map_of_at(keys, clients, kk);
    }
    assert(map_of(ks, cs) =~= m);
}

proof fn lemma_map_of_update(keys: Seq<SocketAddress>, clients: Seq<ClientInfo>, i: int, c: ClientInfo)
    requires
        paired(keys, clients),
        0 <= i < keys.len(),
    ensures
        paired(keys, clients.update(i, c)),
        map_of(keys, clients.update(i, c)) == map_of(keys, clients).insert(keys[i], c),
{
    let cs = clients.update(i, c);
    let m = map_of(keys, clients).insert(keys[i], c);
    assert(keys.contains(keys[i]));
    assert(map_of(keys, cs).dom() =~= m.dom());
    assert forall|x: SocketAddress| map_of(keys, cs).dom().contains(x) implies map_of(keys, cs)[x]
        == m[x] by {
        let k = choose|k: int| 0 <= k < keys.len() && keys[k] == x;
        lemma_map_of_at(keys, cs, k);
        lemma_map_of_at(keys, clients, k);
    }
    assert(map_of(keys, cs) =~= m);
}

impl ClientRegistry {
    /// The registry's contents: each registered address and its client.
    pub closed spec fn view(&self) -> Map<SocketAddress, ClientInfo> {
        map_of(self.keys@, self.clients@)
    }

    /// The registry's own invariant: each client under its own address, no address twice.
    #[verifier::type_invariant]
    closed spec fn wf(&self) -> bool {
        paired(self.keys@, self.clients@)
    }

    /// An empty registry.
    pub fn new() -> (r: Self)
        ensures
            r.view() == Map::<SocketAddress, ClientInfo>::empty(),
    {
        let r = ClientRegistry { keys: Vec::new(), clients: Vec::new() };
        assert(r.view() =~= Map::<SocketAddress, ClientInfo>::empty());
        r
    }

    /// The position of `addr` among the addresses.
    fn find(&self, addr: &SocketAddress) -> (r: Option<usize>)
        ensures
            match r {
                Some(i) => i < self.keys@.len() && self.keys@[i as int] == *addr,
                None => !self.view().dom().contains(*addr),
            },
    {
        let mut i: usize = 0;
        while i < self.keys.len()
            invariant
                i <= self.keys@.len(),
                forall|k: int| 0 <= k < i ==> self.keys@[k] != *addr,
            decreases self.keys.len() - i,
        {
            if self.keys[i] == *addr {
                return Some(i);
            }
            i = i + 1;
        }
        None
    }

    /// Registers `client` under its address, unless that address is already registered.
    pub fn add_client(&mut self, client: ClientInfo) -> (r: Result<(), RegistryError>)
        ensures
            final(self).view() == after_add(old(self).view(), client),
            old(self).view().dom().contains(client.addr) ==> r == Err::<(), RegistryError>(
                RegistryError::AlreadyExists(client.addr),
            ),
            !old(self).view().dom().contains(client.addr) ==> r is Ok,
    {
        proof {
            use_type_invariant(&*self);
        }
        let client_addr = client.addr;
        match self.find(&client_addr) {
            Some(i) => {
                proof {
                    lemma_map_of_at(self.keys@, self.clients@, i as int);
                }
                Err(RegistryError::AlreadyExists(client_addr))
            },
            None => {
                proof {
                    lemma_map_of_push(self.keys@, self.clients@, client_addr, client);
                }
                let mut taken = ClientRegistry::new();
                std::mem::swap(self, &mut taken);
                let ClientRegistry { mut keys, mut clients } = taken;
                keys.push(client_addr);
                clients.push(client);
                *self = ClientRegistry { keys, clients };
                Ok(())
            },
        }
    }

    /// Removes the client registered under `client_addr`, if there is one.
    pub fn remove_client(&mut self, client_addr: SocketAddress) -> (r: Result<(), RegistryError>)
        ensures
            final(self).view() == after_remove(old(self).view(), client_addr),
            old(self).view().dom().contains(client_addr) ==> r is Ok,
            !old(self).view().dom().contains(client_addr) ==> r == Err::<(), RegistryError>(
                RegistryError::NotFound(client_addr),
            ),
    {
        proof {
            use_type_invariant(&*self);
        }
        match self.find(&client_addr) {
            None => Err(RegistryError::NotFound(client_addr)),
            Some(i) => {
                proof {
                    lemma_map_of_at(self.keys@, self.clients@, i as int);
                    lemma_map_of_remove(self.keys@, self.clients@, i as int);
                }
                let mut taken = ClientRegistry::new();
                std::mem::swap(self, &mut taken);
                let ClientRegistry { mut keys, mut clients } = taken;
                let _key = keys.remove(i);
                let _client = clients.remove(i);
                *self = ClientRegistry { keys, clients };
                Ok(())
            },
        }
    }

    /// The client registered under `addr`, if there is one.
    pub fn get(&self, addr: &SocketAddress) -> (r: Option<&ClientInfo>)
        ensures
            match r {
                Some(c) => self.view().dom().contains(*addr) && *c == self.view()[*addr],
                None => !self.view().dom().contains(*addr),
            },
    {
        proof {
            use_type_invariant(self);
        }
        match self.find(addr) {
            Some(i) => {
                proof {
                    lemma_map_of_at(self.keys@, self.clients@, i as int);
                }
                Some(&self.clients[i])
            },
            None => None,
        }
    }

    /// The client registered under `addr`, to change in place, if there is one.
    pub fn get_mut(&mut self, addr: &SocketAddress) -> (r: Option<&mut ClientInfo>)
        ensures
            match r {
                Some(c) => old(self).view().dom().contains(*addr) && *c == old(self).view()[*addr]
                    && final(self).view() == old(self).view().insert(*addr, *final(c)),
                None => !old(self).view().dom().contains(*addr) && final(self).view() == old(
                    self,
                ).view(),
            },
    {
        proof {
            use_type_invariant(&*self);
        }
        match self.find(addr) {
            None => None,
            Some(i) => {
                proof {
                    lemma_map_of_at(self.keys@, self.clients@, i as int);
                    let keys = self.keys@;
                    let clients = self.clients@;
                    assert forall|c: ClientInfo|
                        #![trigger clients.update(i as int, c)]
                        paired(keys, clients.update(i as int, c)) && map_of(keys, clients.update(i as int, c))
                            == map_of(keys, clients).insert(*addr, c) by {
                        lemma_map_of_update(keys, clients, i as int, c);
                    }
                }
                Some(&mut self.clients[i])
            },
        }
    }

    /// Hands a copy of `prices`, equal to it quote by quote, to every registered
    /// client's channel, stopping at the first channel that is closed. With no
    /// client registered there is no channel to fail, and it succeeds.
    pub fn broadcast(&self, prices: &TickerPrices) -> (r: Result<(), RegistryError>)
        ensures
            self.view() == Map::<SocketAddress, ClientInfo>::empty() ==> r is Ok,
            r matches Err(RegistryError::ChannelClosed(a)) ==> self.view().dom().contains(a),
            r is Ok || r is Err && r->Err_0 is ChannelClosed,
    {
        proof {
            use_type_invariant(self);
        }
        let mut i: usize = 0;
        while i < self.clients.len()
            invariant
                i <= self.clients@.len(),
                paired(self.keys@, self.clients@),
            decreases self.clients.len() - i,
        {
            let copy = duplicate_quotes(prices);
            match send_round(&self.clients[i].sender, prices, copy) {
                Ok(()) => {},
                Err(_) => {
                    proof {
                        lemma_map_of_at(self.keys@, self.clients@, i as int);
                    }
                    return Err(RegistryError::ChannelClosed(self.keys[i]));
                },
            }
            i = i + 1;
        }
        Ok(())
    }
}

} // verus!
