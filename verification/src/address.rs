//! Socket addresses and URLs as plain values, with the parsers that produce them.
use vstd::prelude::*;

verus! {

/// A UDP socket address: the address family, the IP address bits and the port,
/// with the IPv6 flow information and scope id.
#[derive(Clone, Copy, PartialEq, Eq, Structural, Debug, Hash)]
pub enum SocketAddress {
    V4 { ip: u32, port: u16 },
    V6 { ip6: u128, port: u16, flowinfo: u32, scope_id: u32 },
}

/// The port of a socket address.
pub open spec fn port_of(a: SocketAddress) -> u16 {
    match a {
        SocketAddress::V4 { port, .. } => port,
        SocketAddress::V6 { port, .. } => port,
    }
}

/// The port of a socket address.
pub fn address_port(a: &SocketAddress) -> (p: u16)
    ensures
        p == port_of(*a),
{
    match a {
        SocketAddress::V4 { port, .. } => *port,
        SocketAddress::V6 { port, .. } => *port,
    }
}

#[verifier::external_type_specification]
#[verifier::external_body]
pub struct ExAddrParseError(core::net::AddrParseError);

/// The socket address that `core::net::SocketAddr`'s `FromStr` reads from `text`,
/// if it reads one.
pub uninterp spec fn parsed_socket_address(text: Seq<char>) -> Option<SocketAddress>;

/// Parses `text` as a socket address, `ip:port` or `[ipv6]:port`.
/// Calls `<core::net::SocketAddr as FromStr>::from_str`; the contract claims only that
/// the outcome is `parsed_socket_address` of the text: `Ok` with that address when
/// it is some address, `Err` when it is none.
#[verifier::external_body]
pub(crate) fn parse_socket_address(text: &str) -> (r: Result<SocketAddress, core::net::AddrParseError>)
    ensures
        match r {
            Ok(a) => parsed_socket_address(text@) == Some(a),
            Err(_) => parsed_socket_address(text@) is None,
        },
{
    match text.parse::<core::net::SocketAddr>() {
        Ok(core::net::SocketAddr::V4(a)) => Ok(SocketAddress::V4 { ip: a.ip().to_bits(), port: a.port() }),
        Ok(core::net::SocketAddr::V6(a)) => Ok(
            SocketAddress::V6 {
                ip6: a.ip().to_bits(),
                port: a.port(),
                flowinfo: a.flowinfo(),
                scope_id: a.scope_id(),
            },
        ),
        Err(e) => Err(e),
    }
}

/// What the logic reads of a parsed URL: its scheme, its host rendered as text
/// (`[..]` around an IPv6 address), and its explicit port.
pub struct UrlParts {
    pub scheme: String,
    pub host: Option<String>,
    pub port: Option<u16>,
}

/// The view of an optional string.
pub open spec fn opt_view(s: Option<String>) -> Option<Seq<char>> {
    match s {
        Some(t) => Some(t@),
        None => None,
    }
}

impl View for UrlParts {
    type V = (Seq<char>, Option<Seq<char>>, Option<u16>);

    open spec fn view(&self) -> Self::V {
        (self.scheme@, opt_view(self.host), self.port)
    }
}

#[verifier::external_type_specification]
#[verifier::external_body]
pub struct ExUrlParseError(url::ParseError);

/// The scheme, host text and port of the URL that `url::Url::parse` reads from
/// `text`, if it reads one.
pub uninterp spec fn parsed_url(text: Seq<char>) -> Option<(Seq<char>, Option<Seq<char>>, Option<u16>)>;

/// Parses `text` as an absolute URL.
/// Calls `url::Url::parse` and reads `scheme()`, `host()` (rendered with its
/// `Display`) and `port()` of the result; the contract claims only that the outcome
/// is `parsed_url` of the text.
#[verifier::external_body]
pub(crate) fn parse_url(text: &str) -> (r: Result<UrlParts, url::ParseError>)
    ensures
        match r {
            Ok(p) => parsed_url(text@) == Some(p@),
            Err(_) => parsed_url(text@) is None,
        },
{
    match url::Url::parse(text) {
        Ok(u) => Ok(
            UrlParts {
                scheme: u.scheme().to_string(),
                host: match u.host() {
                    Some(h) => Some(h.to_string()),
                    None => None,
                },
                port: u.port(),
            },
        ),
        Err(e) => Err(e),
    }
}

} // verus!
