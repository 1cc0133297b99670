use quote_stream::address::SocketAddress;
use quote_stream::command::CommandError;
use quote_stream::quotes::StockQuote;
use quote_stream::handler::PING_TIMEOUT_MS;
use quote_stream::quotes::TickerPrices;
use quote_stream::registry::{ClientInfo, ClientRegistry};
use quote_stream::server::{
    error_line_for, handle_stream_cmd, reads_ticker_list, respond_to_command, LegacyStep, LegacyStream, Opening,
};
use std::sync::mpsc::channel;

fn strings(v: &[&str]) -> Vec<String> {
    v.iter().map(|s| s.to_string()).collect()
}

fn known() -> Result<Vec<String>, String> {
    Ok(strings(&["AAPL", "GOOGL", "TSLA"]))
}

fn reply(o: Opening) -> String {
    match o {
        Opening::Reply(s) => s,
        Opening::Stream(..) => panic!("expected a reply"),
    }
}

#[test]
fn stream_cmd_checks_tickers_against_file() {
    let (addr, list) =
        handle_stream_cmd(strings(&["udp://127.0.0.1:45222", "AAPL,TSLA"]), known()).ok().unwrap();
    assert_eq!(addr, SocketAddress::V4 { ip: 0x7f00_0001, port: 45222 });
    assert_eq!(list, strings(&["AAPL", "TSLA"]));
    let (addr, list) =
        handle_stream_cmd(strings(&["127.0.0.1:45222", "AAPL,GOOGL,AAPL"]), known()).ok().unwrap();
    assert_eq!(addr, SocketAddress::V4 { ip: 0x7f00_0001, port: 45222 });
    assert_eq!(list, strings(&["AAPL", "GOOGL"]));
    let e = handle_stream_cmd(strings(&["udp://127.0.0.1:45222", "AAPL,MSFT"]), known()).err().unwrap();
    assert_eq!(e.message(), "file's tickers list doesn't contain client ticker MSFT");
    let e = handle_stream_cmd(strings(&["udp://127.0.0.1:45222", "AAPL,,TSLA"]), known()).err().unwrap();
    assert!(matches!(e, CommandError::EmptyTicker));
    assert_eq!(e.message(), "client ticker cannot be empty");
    let e = handle_stream_cmd(strings(&["udp://127.0.0.1:0", "AAPL"]), known()).err().unwrap();
    assert_eq!(e.message(), "port out of range (1-65535)");
    let e = handle_stream_cmd(strings(&["udp://127.0.0.1:5", "AAPL"]), Err("No such file".to_string()))
        .err()
        .unwrap();
    assert_eq!(e.message(), "failed to read tickers from file tickers.txt: No such file");
}

#[test]
fn command_lines_are_answered() {
    assert_eq!(reply(respond_to_command("\r\n", known())), "ERROR: command is empty\n");
    assert_eq!(reply(respond_to_command("EXIT\n", known())), "OK: goodbye\n");
    assert_eq!(reply(respond_to_command("HELLO\n", known())), "ERROR: wrong command HELLO\n");
    assert_eq!(
        reply(respond_to_command("STREAM udp://127.0.0.1:1\n", known())),
        "ERROR: missing ticker list\n"
    );
    match respond_to_command("STREAM udp://127.0.0.1:45222 TSLA\n", known()) {
        Opening::Stream(a, list) => {
            assert_eq!(a, SocketAddress::V4 { ip: 0x7f00_0001, port: 45222 });
            assert_eq!(list, strings(&["TSLA"]));
        }
        Opening::Reply(r) => panic!("refused: {}", r),
    }
}

#[test]
fn error_lines() {
    assert_eq!(error_line_for("boom"), "ERROR: boom\n");
}

#[test]
fn legacy_stream_counts_failures() {
    let mut s = LegacyStream::new();
    assert!(s.give_up().is_none());
    let q = vec![StockQuote::new("AAPL".to_string(), 1.5f64.to_bits(), 1200, 7)];
    match s.on_round(q, &strings(&["TSLA"])) {
        LegacyStep::Close(m) => assert_eq!(m, "ERROR: no tickers were found\n"),
        LegacyStep::Send(_) | LegacyStep::Skip => panic!("sent"),
    }
    let q = vec![StockQuote::new("AAPL".to_string(), 1.5f64.to_bits(), 1200, 7)];
    assert!(matches!(s.on_round(q, &strings(&["AAPL"])), LegacyStep::Send(_)));
    for _ in 0..11 {
        s.on_sent(false);
    }
    assert_eq!(s.failed_count, 11);
    assert_eq!(s.give_up().unwrap(), "ERROR: To much handle client errors\n");
    let mut t = LegacyStream::new();
    t.on_receive_error();
    t.on_sent(true);
    assert_eq!(t.failed_count, 1);
}

#[test]
fn only_stream_lines_read_the_ticker_list() {
    assert!(reads_ticker_list("STREAM udp://127.0.0.1:1 A\n"));
    assert!(reads_ticker_list("  STREAM\r\n"));
    assert!(!reads_ticker_list("EXIT\n"));
    assert!(!reads_ticker_list("HELLO there\n"));
    assert!(!reads_ticker_list("\n"));
    let unreadable: Result<Vec<String>, String> = Err("No such file".to_string());
    assert_eq!(reply(respond_to_command("EXIT\n", unreadable.clone())), "OK: goodbye\n");
    assert_eq!(reply(respond_to_command("HELLO\n", unreadable)), "ERROR: wrong command HELLO\n");
}

#[test]
fn legacy_stream_stops_when_pings_stop() {
    let a = SocketAddress::V4 { ip: 0x7f00_0001, port: 45222 };
    let mut reg = ClientRegistry::new();
    let (tx, _rx) = channel::<TickerPrices>();
    reg.add_client(ClientInfo::new(a, tx, 1000)).ok().unwrap();
    let s = LegacyStream::new();
    assert!(!s.on_timeout(&mut reg, a, 1000 + PING_TIMEOUT_MS));
    assert!(reg.get(&a).is_some());
    assert!(s.on_timeout(&mut reg, a, 1001 + PING_TIMEOUT_MS));
    assert!(reg.get(&a).is_none());
    assert!(s.on_timeout(&mut reg, a, 0));
}
