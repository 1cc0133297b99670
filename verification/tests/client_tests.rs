use quote_stream::address::SocketAddress;
use quote_stream::client::{stream_command, ReceiverState};
use quote_stream::generators::{generate_volume, ticker_is_major, volume_from_draw};
use quote_stream::quotes::{filter_prices, sort_by_ticker, StockQuote};
use quote_stream::response::{is_response_ok, ServerTcpResponse};
use quote_stream::tcp_input::{parse_tcp_line, stream_ack_line};
use quote_stream::ticker_list::{default_ticker_list, read_tickers_file, tickers_from_lines};
use quote_stream::wire::serialize_quotes;

fn strings(v: &[&str]) -> Vec<String> {
    v.iter().map(|s| s.to_string()).collect()
}

#[test]
fn response_ok_only_for_ok() {
    assert!(matches!(is_response_ok("OK\n".to_string()), ServerTcpResponse::OK));
    assert!(matches!(is_response_ok("  OK  ".to_string()), ServerTcpResponse::OK));
    match is_response_ok("ERROR: nope\r\n".to_string()) {
        ServerTcpResponse::ErrorResponse(e) => assert_eq!(e, "ERROR: nope"),
        ServerTcpResponse::OK => panic!("accepted an error"),
    }
    assert!(matches!(is_response_ok("OK 4000".to_string()), ServerTcpResponse::OK));
    assert!(matches!(is_response_ok("OK 45222\n".to_string()), ServerTcpResponse::OK));
    assert!(matches!(is_response_ok("OK 65535".to_string()), ServerTcpResponse::OK));
    match is_response_ok("OK 70000".to_string()) {
        ServerTcpResponse::ErrorResponse(e) => assert_eq!(e, "OK 70000"),
        ServerTcpResponse::OK => panic!("accepted a port out of range"),
    }
    assert!(matches!(is_response_ok("OK x".to_string()), ServerTcpResponse::ErrorResponse(_)));
    assert!(matches!(is_response_ok("OK 123456".to_string()), ServerTcpResponse::ErrorResponse(_)));
    assert!(matches!(is_response_ok("OKAY".to_string()), ServerTcpResponse::ErrorResponse(_)));
}

#[test]
fn stream_ack_is_accepted_by_client() {
    for port in [0u16, 7, 45222, 65535] {
        assert!(matches!(is_response_ok(stream_ack_line(port)), ServerTcpResponse::OK));
    }
}

#[test]
fn ticker_files() {
    let lines = strings(&["  AAPL ", "", "TSLA", "\t", "AAPL", "GOOGL"]);
    assert_eq!(tickers_from_lines(&lines), strings(&["AAPL", "TSLA", "GOOGL"]));
    assert_eq!(read_tickers_file(&lines), "AAPL,TSLA,GOOGL");
    assert_eq!(read_tickers_file(&vec![]), "");
    assert_eq!(default_ticker_list(), strings(&["AAPL", "MSFT", "TSLA"]));
}

#[test]
fn stream_command_text() {
    assert_eq!(stream_command("127.0.0.1:45222", "AAPL,TSLA"), "STREAM udp://127.0.0.1:45222 AAPL,TSLA\n");
}

#[test]
fn command_sent_by_client_is_understood_by_server() {
    let tickers = read_tickers_file(&strings(&["AAPL", "TSLA", "AAPL"]));
    let cmd = stream_command("127.0.0.1:45222", &tickers);
    let (addr, set) = parse_tcp_line(&cmd).ok().unwrap();
    assert_eq!(addr, SocketAddress::V4 { ip: 0x7f00_0001, port: 45222 });
    assert_eq!(set, strings(&["AAPL", "TSLA"]));
}

#[test]
fn receiver_reports_server_once() {
    let mut r = ReceiverState::new();
    let src = SocketAddress::V4 { ip: 0x0a00_0001, port: 8080 };
    let bytes = serialize_quotes(vec![StockQuote::new("A".to_string(), 0, 1, 2)]).ok().unwrap();
    let first = r.on_datagram(&bytes, src);
    assert_eq!(first.report, Some(src));
    assert_eq!(first.quotes.unwrap()[0].ticker, "A");
    let second = r.on_datagram(b"junk", src);
    assert_eq!(second.report, None);
    assert!(second.quotes.is_none());
}

#[test]
fn filtering_and_sorting() {
    let round = vec![
        StockQuote::new("TSLA".to_string(), 1, 1, 1),
        StockQuote::new("AAPL".to_string(), 2, 2, 2),
        StockQuote::new("MSFT".to_string(), 3, 3, 3),
    ];
    let kept = filter_prices(round, &strings(&["MSFT", "TSLA"]));
    assert_eq!(kept.iter().map(|q| q.ticker.clone()).collect::<Vec<_>>(), strings(&["TSLA", "MSFT"]));
    let sorted = sort_by_ticker(vec![
        StockQuote::new("TSLA".to_string(), 1, 1, 1),
        StockQuote::new("AAPL".to_string(), 2, 2, 2),
        StockQuote::new("AAP".to_string(), 3, 3, 3),
        StockQuote::new("AAPL".to_string(), 4, 4, 4),
    ]);
    let order: Vec<(String, u64)> = sorted.iter().map(|q| (q.ticker.clone(), q.price_bits)).collect();
    assert_eq!(
        order,
        vec![("AAP".to_string(), 3), ("AAPL".to_string(), 2), ("AAPL".to_string(), 4), ("TSLA".to_string(), 1)]
    );
}

#[test]
fn volumes() {
    assert!(ticker_is_major("MSFT"));
    assert!(!ticker_is_major("GOOGL"));
    assert_eq!(volume_from_draw("AAPL", 4999), 5999);
    assert_eq!(volume_from_draw("GOOGL", 0), 100);
    let mut rng = rand::thread_rng();
    for _ in 0..200 {
        let v = generate_volume(&mut rng, "TSLA");
        assert!((1000..6000).contains(&v));
        let w = generate_volume(&mut rng, "GOOGL");
        assert!((100..1100).contains(&w));
    }
}
