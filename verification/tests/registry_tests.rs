use quote_stream::address::SocketAddress;
use quote_stream::handler::{client_timed_out, StreamSession, MAX_FAILED, PING_TIMEOUT_MS};
use quote_stream::keep_alive::{handle_ping, is_ping, ping_message, PingOutcome};
use quote_stream::quotes::{StockQuote, TickerPrices};
use quote_stream::registry::{ClientInfo, ClientRegistry, RegistryError};
use quote_stream::wire::deserialize_quotes;
use std::sync::mpsc::channel;

fn addr(port: u16) -> SocketAddress {
    SocketAddress::V4 { ip: 0x7f00_0001, port }
}

#[test]
fn add_get_remove() {
    let mut reg = ClientRegistry::new();
    let (tx, _rx) = channel::<TickerPrices>();
    assert!(reg.add_client(ClientInfo::new(addr(1), tx.clone(), 100)).is_ok());
    assert_eq!(reg.get(&addr(1)).unwrap().last_ping, 100);
    assert!(reg.get(&addr(2)).is_none());
    match reg.add_client(ClientInfo::new(addr(1), tx.clone(), 200)) {
        Err(RegistryError::AlreadyExists(a)) => assert_eq!(a, addr(1)),
        _ => panic!("second add accepted"),
    }
    assert_eq!(reg.get(&addr(1)).unwrap().last_ping, 100);
    assert!(reg.add_client(ClientInfo::new(addr(2), tx, 300)).is_ok());
    assert!(reg.remove_client(addr(1)).is_ok());
    assert!(reg.get(&addr(1)).is_none());
    assert_eq!(reg.get(&addr(2)).unwrap().last_ping, 300);
    assert!(matches!(reg.remove_client(addr(1)), Err(RegistryError::NotFound(_))));
}

#[test]
fn clients_are_found_under_their_own_address() {
    let mut reg = ClientRegistry::new();
    let (tx, _rx) = channel::<TickerPrices>();
    for port in [3u16, 4, 5] {
        reg.add_client(ClientInfo::new(addr(port), tx.clone(), 1)).ok().unwrap();
    }
    reg.remove_client(addr(4)).ok().unwrap();
    reg.get_mut(&addr(5)).unwrap().update_ping(9);
    for port in [3u16, 5] {
        assert_eq!(reg.get(&addr(port)).unwrap().addr, addr(port));
    }
    assert!(reg.get(&addr(4)).is_none());
}

#[test]
fn get_mut_changes_in_place() {
    let mut reg = ClientRegistry::new();
    let (tx, _rx) = channel::<TickerPrices>();
    reg.add_client(ClientInfo::new(addr(7), tx, 5)).ok().unwrap();
    reg.get_mut(&addr(7)).unwrap().update_ping(42);
    assert_eq!(reg.get(&addr(7)).unwrap().last_ping, 42);
    assert!(reg.get_mut(&addr(8)).is_none());
}

#[test]
fn broadcast_reaches_every_client() {
    let mut reg = ClientRegistry::new();
    let (tx1, rx1) = channel::<TickerPrices>();
    let (tx2, rx2) = channel::<TickerPrices>();
    reg.add_client(ClientInfo::new(addr(1), tx1, 0)).ok().unwrap();
    reg.add_client(ClientInfo::new(addr(2), tx2, 0)).ok().unwrap();
    let prices = vec![StockQuote::new("AAPL".to_string(), 2.0f64.to_bits(), 1500, 9)];
    assert!(reg.broadcast(&prices).is_ok());
    assert_eq!(rx1.recv().unwrap()[0].ticker, "AAPL");
    assert_eq!(rx2.recv().unwrap()[0].volume, 1500);
    drop(rx2);
    match reg.broadcast(&prices) {
        Err(RegistryError::ChannelClosed(a)) => assert_eq!(a, addr(2)),
        _ => panic!("closed channel not reported"),
    }
}

#[test]
fn expiry_follows_pings() {
    let (tx, _rx) = channel::<TickerPrices>();
    let mut c = ClientInfo::new(addr(1), tx, 1000);
    assert!(!c.is_expired(5000, 6000));
    assert!(c.is_expired(5000, 6001));
    assert!(!c.is_expired(5000, 10));
    c.update_ping(6001);
    assert!(!c.is_expired(5000, 6001));
}

#[test]
fn pings_update_registered_clients() {
    let mut reg = ClientRegistry::new();
    let (tx, _rx) = channel::<TickerPrices>();
    reg.add_client(ClientInfo::new(addr(1), tx, 0)).ok().unwrap();
    assert!(is_ping(&ping_message()));
    assert!(is_ping(b"PING"));
    assert!(!is_ping(b"PONG"));
    assert!(matches!(handle_ping(&mut reg, b"PING", addr(1), 777), PingOutcome::Updated));
    assert_eq!(reg.get(&addr(1)).unwrap().last_ping, 777);
    assert!(matches!(handle_ping(&mut reg, b"PING", addr(2), 800), PingOutcome::UnknownClient));
    assert!(matches!(handle_ping(&mut reg, b"PINGS", addr(1), 900), PingOutcome::NotPing));
    assert_eq!(reg.get(&addr(1)).unwrap().last_ping, 777);
    assert!(!client_timed_out(&reg, &addr(1), PING_TIMEOUT_MS, 777 + 5000));
    assert!(client_timed_out(&reg, &addr(1), PING_TIMEOUT_MS, 777 + 5001));
    assert!(client_timed_out(&reg, &addr(2), PING_TIMEOUT_MS, 0));
}

#[test]
fn stream_session_filters_and_counts() {
    let mut s = StreamSession::new(addr(1), vec!["TSLA".to_string()]);
    let round = vec![
        StockQuote::new("AAPL".to_string(), 1.0f64.to_bits(), 1000, 1),
        StockQuote::new("TSLA".to_string(), 3.25f64.to_bits(), 2000, 1),
    ];
    let bytes = s.on_round(round).unwrap();
    let back = deserialize_quotes(&bytes).ok().unwrap();
    assert_eq!(back.len(), 1);
    assert_eq!(back[0].ticker, "TSLA");
    assert_eq!(f64::from_bits(back[0].price_bits), 3.25);
    let none = s.on_round(vec![StockQuote::new("AAPL".to_string(), 0, 0, 0)]);
    assert!(none.is_none());
    for _ in 0..=MAX_FAILED {
        assert!(!s.give_up());
        s.on_sent(false);
    }
    assert!(s.give_up());
    let mut t = StreamSession::new(addr(2), vec![]);
    t.on_sent(false);
    t.on_sent(true);
    assert_eq!(t.failed_count, 0);
    let mut reg = ClientRegistry::new();
    let (tx, _rx) = channel::<TickerPrices>();
    reg.add_client(ClientInfo::new(addr(2), tx, 100)).ok().unwrap();
    assert!(!t.on_timeout(&reg, 4000));
    assert!(t.on_timeout(&reg, 5101));
}
