//! The pieces of the `STREAM <udp_url> <ticker>[,ticker...]` command that both
//! server front ends share: the errors and their texts, the UDP target of the URL,
//! and the client's ticker list.
use vstd::prelude::*;
use crate::address::{SocketAddress, port_of, address_port, parse_url, parse_socket_address, parsed_url, parsed_socket_address};
use crate::text::{Separator, pieces, decimal, views, split_pieces, push_decimal, string_push};

verus! {

broadcast use vstd::seq_lib::group_seq_properties;

/// Why a client command is refused.
pub enum CommandError {
    Empty,
    MissingUrl,
    MissingTickers,
    TooManyArguments,
    InvalidUrl,
    WrongScheme,
    MissingHost,
    MissingPort,
    PortOutOfRange,
    InvalidAddress,
    EmptyTickerList,
    EmptyTicker,
    TickersFileUnreadable(String),
    UnknownTicker(String),
    WrongCommand(String),
}

/// `CommandError` with its texts as character sequences.
pub enum CommandErrorView {
    Empty,
    MissingUrl,
    MissingTickers,
    TooManyArguments,
    InvalidUrl,
    WrongScheme,
    MissingHost,
    MissingPort,
    PortOutOfRange,
    InvalidAddress,
    EmptyTickerList,
    EmptyTicker,
    TickersFileUnreadable(Seq<char>),
    UnknownTicker(Seq<char>),
    WrongCommand(Seq<char>),
}

impl View for CommandError {
    type V = CommandErrorView;

    open spec fn view(&self) -> CommandErrorView {
        match self {
            CommandError::Empty => CommandErrorView::Empty,
            CommandError::MissingUrl => CommandErrorView::MissingUrl,
            CommandError::MissingTickers => CommandErrorView::MissingTickers,
            CommandError::TooManyArguments => CommandErrorView::TooManyArguments,
            CommandError::InvalidUrl => CommandErrorView::InvalidUrl,
            CommandError::WrongScheme => CommandErrorView::WrongScheme,
            CommandError::MissingHost => CommandErrorView::MissingHost,
            CommandError::MissingPort => CommandErrorView::MissingPort,
            CommandError::PortOutOfRange => CommandErrorView::PortOutOfRange,
            CommandError::InvalidAddress => CommandErrorView::InvalidAddress,
            CommandError::EmptyTickerList => CommandErrorView::EmptyTickerList,
            CommandError::EmptyTicker => CommandErrorView::EmptyTicker,
            CommandError::TickersFileUnreadable(e) => CommandErrorView::TickersFileUnreadable(e@),
            CommandError::UnknownTicker(t) => CommandErrorView::UnknownTicker(t@),
            CommandError::WrongCommand(c) => CommandErrorView::WrongCommand(c@),
        }
    }
}

/// The file from which the server reads the tickers it knows.
pub open spec fn tickers_path() -> Seq<char> {
    "tickers.txt"@
}

/// The text by which a refusal is reported.
pub open spec fn error_text(e: CommandErrorView) -> Seq<char> {
    match e {
        CommandErrorView::Empty => "command is empty"@,
        CommandErrorView::MissingUrl => "missing UDP URL"@,
        CommandErrorView::MissingTickers => "missing ticker list"@,
        CommandErrorView::TooManyArguments => "too many arguments"@,
        CommandErrorView::InvalidUrl => "invalid URL format"@,
        CommandErrorView::WrongScheme => "URL scheme must be 'udp'"@,
        CommandErrorView::MissingHost => "URL missing host"@,
        CommandErrorView::MissingPort => "URL missing port"@,
        CommandErrorView::PortOutOfRange => "port out of range (1-65535)"@,
        CommandErrorView::InvalidAddress => "host is not a valid IP address"@,
        CommandErrorView::EmptyTickerList => "client ticker list is empty"@,
        CommandErrorView::EmptyTicker => "client ticker cannot be empty"@,
        CommandErrorView::TickersFileUnreadable(reason) => "failed to read tickers from file "@
            + tickers_path() + ": "@ + reason,
        CommandErrorView::UnknownTicker(t) => "file's tickers list doesn't contain client ticker "@
            + t,
        CommandErrorView::WrongCommand(c) => "wrong command "@ + c,
    }
}

impl CommandError {
    /// The text by which this refusal is reported.
    pub fn message(&self) -> (m: String)
        ensures
            m@ == error_text(self@),
    {
        match self {
            CommandError::Empty => String::from_str("command is empty"),
            CommandError::MissingUrl => String::from_str("missing UDP URL"),
            CommandError::MissingTickers => String::from_str("missing ticker list"),
            CommandError::TooManyArguments => String::from_str("too many arguments"),
            CommandError::InvalidUrl => String::from_str("invalid URL format"),
            CommandError::WrongScheme => String::from_str("URL scheme must be 'udp'"),
            CommandError::MissingHost => String::from_str("URL missing host"),
            CommandError::MissingPort => String::from_str("URL missing port"),
            CommandError::PortOutOfRange => String::from_str("port out of range (1-65535)"),
            CommandError::InvalidAddress => String::from_str("host is not a valid IP address"),
            CommandError::EmptyTickerList => String::from_str("client ticker list is empty"),
            CommandError::EmptyTicker => String::from_str("client ticker cannot be empty"),
            CommandError::TickersFileUnreadable(reason) => {
                let mut m = String::from_str("failed to read tickers from file ");
                m.append("tickers.txt");
                m.append(": ");
                m.append(reason.as_str());
                m
            },
            CommandError::UnknownTicker(t) => {
                let mut m = String::from_str("file's tickers list doesn't contain client ticker ");
                m.append(t.as_str());
                m
            },
            CommandError::WrongCommand(c) => {
                let mut m = String::from_str("wrong command ");
                m.append(c.as_str());
                m
            },
        }
    }
}

/// The view of a result whose error is a `CommandError`.
pub open spec fn result_view<T>(r: Result<T, CommandError>) -> Result<T, CommandErrorView> {
    match r {
        Ok(t) => Ok(t),
        Err(e) => Err(e@),
    }
}

/// The text `host:port` that names the UDP target.
pub open spec fn socket_text(host: Seq<char>, port: u16) -> Seq<char> {
    host.push(':') + decimal(port as nat)
}

/// The UDP socket address that the target text names: a plain socket address
/// (`ip:port` or `[ipv6]:port`), or a `udp://host:port` URL; or why it names none.
/// `reject_port_zero` adds the check that the port is not 0.
pub open spec fn url_target(url_text: Seq<char>, reject_port_zero: bool) -> Result<
    SocketAddress,
    CommandErrorView,
> {
    match parsed_socket_address(url_text) {
        Some(a) => if reject_port_zero && port_of(a) == 0 {
            Err(CommandErrorView::PortOutOfRange)
        } else {
            Ok(a)
        },
        None => udp_url_target(url_text, reject_port_zero),
    }
}

/// The UDP socket address that a `udp://host:port` URL names, or why it names none.
pub open spec fn udp_url_target(url_text: Seq<char>, reject_port_zero: bool) -> Result<
    SocketAddress,
    CommandErrorView,
> {
    match parsed_url(url_text) {
        None => Err(CommandErrorView::InvalidUrl),
        Some((scheme, host, port)) => if scheme != "udp"@ {
            Err(CommandErrorView::WrongScheme)
        } else {
            match host {
                None => Err(CommandErrorView::MissingHost),
                Some(h) => match port {
                    None => Err(CommandErrorView::MissingPort),
                    Some(p) => if reject_port_zero && p == 0 {
                        Err(CommandErrorView::PortOutOfRange)
                    } else {
                        match parsed_socket_address(socket_text(h, p)) {
                            None => Err(CommandErrorView::InvalidAddress),
                            Some(a) => Ok(a),
                        }
                    },
                },
            }
        },
    }
}

/// The UDP socket address that the target text names: a plain socket address or
/// a `udp://` URL.
pub fn resolve_url_target(url_text: &str, reject_port_zero: bool) -> (r: Result<
    SocketAddress,
    CommandError,
>)
    ensures
        result_view(r) == url_target(url_text@, reject_port_zero),
{
    if let Ok(a) = parse_socket_address(url_text) {
        if reject_port_zero && address_port(&a) == 0 {
            return Err(CommandError::PortOutOfRange);
        }
        return Ok(a);
    }
    let parts = match parse_url(url_text) {
        Ok(p) => p,
        Err(_) => {
            return Err(CommandError::InvalidUrl);
        },
    };
    let udp = String::from_str("udp");
    if parts.scheme != udp {
        return Err(CommandError::WrongScheme);
    }
    let host = match parts.host {
        Some(h) => h,
        None => {
            return Err(CommandError::MissingHost);
        },
    };
    let port = match parts.port {
        Some(p) => p,
        None => {
            return Err(CommandError::MissingPort);
        },
    };
    if reject_port_zero && port == 0 {
        return Err(CommandError::PortOutOfRange);
    }
    let ghost h = host@;
    let mut text = host;
    string_push(&mut text, ':');
    push_decimal(&mut text, port as u64);
    assert(text@ =~= socket_text(h, port));
    match parse_socket_address(text.as_str()) {
        Ok(a) => Ok(a),
        Err(_) => Err(CommandError::InvalidAddress),
    }
}

/// The client's tickers: the comma-separated pieces of the ticker list.
pub open spec fn ticker_pieces(list: Seq<char>) -> Seq<Seq<char>> {
    pieces(list, Separator::Char(','))
}

/// Whether `v` holds a string equal to `s`.
pub fn contains_string(v: &Vec<String>, s: &String) -> (b: bool)
    ensures
        b == views(v@).contains(s@),
{
    let mut i: usize = 0;
    while i < v.len()
        invariant
            i <= v@.len(),
            forall|k: int| 0 <= k < i ==> v@[k]@ != s@,
        decreases v.len() - i,
    {
        if v[i] == *s {
            assert(views(v@)[i as int] == s@);
            return true;
        }
        i = i + 1;
    }
    assert forall|k: int| 0 <= k < views(v@).len() implies views(v@)[k] != s@ by {
        assert(views(v@)[k] == v@[k]@);
    }
    false
}

/// The strings of `v` with repetitions left out: each distinct one once, in the
/// order of its first occurrence.
pub fn distinct_strings(v: Vec<String>) -> (r: Vec<String>)
    ensures
        views(r@).no_duplicates(),
        views(r@).to_set() == views(v@).to_set(),
{
    let mut out: Vec<String> = Vec::new();
    let mut i: usize = 0;
    while i < v.len()
        invariant
            i <= v@.len(),
            views(out@).no_duplicates(),
            views(out@).to_set() == views(v@).take(i as int).to_set(),
        decreases v.len() - i,
    {
        let s = v[i].clone();
        let ghost prev = views(out@);
        assert(views(v@).take(i + 1) =~= views(v@).take(i as int).push(s@));
        proof {
            prev.lemma_push_to_set_commute(s@);
            views(v@).take(i as int).lemma_push_to_set_commute(s@);
        }
        if !contains_string(&out, &s) {
            out.push(s);
            assert(views(out@) =~= prev.push(s@));
        } else {
            assert(prev.to_set().contains(s@));
            assert(views(v@).take(i + 1).to_set() =~= views(v@).take(i as int).to_set());
        }
        i = i + 1;
    }
    assert(views(v@).take(v@.len() as int) =~= views(v@));
    out
}

/// The comma-separated pieces of a ticker list.
pub fn split_tickers(list: &str) -> (r: Vec<String>)
    ensures
        views(r@) == ticker_pieces(list@),
{
    split_pieces(list, Separator::Char(','))
}

} // verus!
