use quote_stream::address::SocketAddress;
use quote_stream::command::{resolve_url_target, CommandError};
use quote_stream::tcp_input::{
    parse_command, parse_command_parts, parse_tcp_command, parse_tcp_line, stream_ack_line, TcpCommandError,
};

fn strings(v: &[&str]) -> Vec<String> {
    v.iter().map(|s| s.to_string()).collect()
}

fn localhost(port: u16) -> SocketAddress {
    SocketAddress::V4 { ip: 0x7f00_0001, port }
}

fn msg(r: Result<(SocketAddress, Vec<String>), CommandError>) -> String {
    match r {
        Err(e) => e.message(),
        Ok(_) => panic!("expected an error"),
    }
}

#[test]
fn command_word_and_rest() {
    let (c, rest) = parse_command("STREAM a b").ok().unwrap();
    assert_eq!(c, "STREAM");
    assert_eq!(rest, strings(&["a", "b"]));
    assert!(matches!(parse_command("   "), Err(CommandError::Empty)));
}

#[test]
fn url_targets() {
    assert_eq!(resolve_url_target("udp://127.0.0.1:45222", false).ok(), Some(localhost(45222)));
    assert_eq!(
        resolve_url_target("udp://[::1]:8000", false).ok(),
        Some(SocketAddress::V6 { ip6: 1, port: 8000, flowinfo: 0, scope_id: 0 })
    );
    assert_eq!(resolve_url_target("udp://127.0.0.1:0", false).ok(), Some(localhost(0)));
    assert!(matches!(resolve_url_target("udp://127.0.0.1:0", true), Err(CommandError::PortOutOfRange)));
    assert_eq!(resolve_url_target("127.0.0.1:45222", false).ok(), Some(localhost(45222)));
    assert_eq!(
        resolve_url_target("[::1]:8000", false).ok(),
        Some(SocketAddress::V6 { ip6: 1, port: 8000, flowinfo: 0, scope_id: 0 })
    );
    assert!(matches!(resolve_url_target("127.0.0.1:0", true), Err(CommandError::PortOutOfRange)));
    assert_eq!(resolve_url_target("127.0.0.1:0", false).ok(), Some(localhost(0)));
    assert!(matches!(resolve_url_target("not a url", false), Err(CommandError::InvalidUrl)));
    assert!(matches!(resolve_url_target("http://127.0.0.1:80", false), Err(CommandError::WrongScheme)));
    assert!(matches!(resolve_url_target("udp://127.0.0.1", false), Err(CommandError::MissingPort)));
    assert!(matches!(resolve_url_target("udp:/x", false), Err(CommandError::MissingHost)));
    assert!(matches!(resolve_url_target("udp://localhost:9000", false), Err(CommandError::InvalidAddress)));
}

#[test]
fn command_parts_checked_in_order() {
    assert_eq!(msg(parse_command_parts(vec![])), "missing UDP URL");
    assert_eq!(msg(parse_command_parts(strings(&["udp://127.0.0.1:1"]))), "missing ticker list");
    assert_eq!(msg(parse_command_parts(strings(&["a", "b", "c"]))), "too many arguments");
    assert_eq!(msg(parse_command_parts(strings(&["bad", "A"]))), "invalid URL format");
    assert_eq!(msg(parse_command_parts(strings(&["ftp://1.2.3.4:5", "A"]))), "URL scheme must be 'udp'");
    assert_eq!(msg(parse_command_parts(strings(&["udp://1.2.3.4", "A"]))), "URL missing port");
    assert_eq!(msg(parse_command_parts(strings(&["udp://name:5", "A"]))), "host is not a valid IP address");
}

#[test]
fn command_parts_give_target_and_distinct_tickers() {
    let (addr, tickers) = parse_command_parts(strings(&["udp://127.0.0.1:45222", "AAPL,TSLA,AAPL"])).ok().unwrap();
    assert_eq!(addr, localhost(45222));
    assert_eq!(tickers, strings(&["AAPL", "TSLA"]));
    let (_, with_empty) = parse_command_parts(strings(&["udp://127.0.0.1:45222", "A,,B"])).ok().unwrap();
    assert_eq!(with_empty, strings(&["A", "", "B"]));
}

#[test]
fn tcp_command_accepts_only_stream() {
    let (addr, tickers) = parse_tcp_command("STREAM udp://127.0.0.1:45222 AAPL,GOOGL").ok().unwrap();
    assert_eq!(addr, localhost(45222));
    assert_eq!(tickers, strings(&["AAPL", "GOOGL"]));
    let (addr, tickers) = parse_tcp_command("STREAM 127.0.0.1:45222 AAPL,GOOGL").ok().unwrap();
    assert_eq!(addr, localhost(45222));
    assert_eq!(tickers, strings(&["AAPL", "GOOGL"]));
    match parse_tcp_command("PLAY udp://127.0.0.1:45222 AAPL") {
        Err(e) => {
            assert!(matches!(e, TcpCommandError::WrongCommand(_)));
            assert_eq!(e.message(), "wrong command PLAY");
        }
        Ok(_) => panic!("accepted"),
    }
    match parse_tcp_command("") {
        Err(e) => assert_eq!(e.message(), "Failed to parse client command: command is empty"),
        Ok(_) => panic!("accepted"),
    }
    match parse_tcp_command("STREAM udp://127.0.0.1:45222") {
        Err(e) => assert_eq!(e.message(), "Failed to parse client command: missing ticker list"),
        Ok(_) => panic!("accepted"),
    }
}

#[test]
fn tcp_line_is_trimmed_first() {
    let (addr, tickers) = parse_tcp_line("  STREAM udp://127.0.0.1:45222 TSLA \r\n").ok().unwrap();
    assert_eq!(addr, localhost(45222));
    assert_eq!(tickers, strings(&["TSLA"]));
}

#[test]
fn ack_names_ping_port() {
    assert_eq!(stream_ack_line(34567), "OK 34567\n");
}
