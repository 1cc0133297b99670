//! The server's reading of the client's command line: `STREAM <udp_url> <tickers>`,
//! answered with the UDP target and the set of tickers that the client asked for.
use vstd::prelude::*;
use crate::address::SocketAddress;
use crate::command::{
    CommandError,
    CommandErrorView,
    error_text,
    result_view,
    url_target,
    ticker_pieces,
    resolve_url_target,
    split_tickers,
    distinct_strings,
};
use crate::text::{Separator, lemma_pieces_len, decimal, push_decimal, string_push, words, views, split_words, trim, trim_str};

verus! {

/// The command word and the words after it, or `Empty` when `input` has no word.
pub open spec fn command_words(input: Seq<char>) -> Result<
    (Seq<char>, Seq<Seq<char>>),
    CommandErrorView,
> {
    let ws = words(input);
    if ws.len() == 0 {
        Err(CommandErrorView::Empty)
    } else {
        Ok((ws[0], ws.drop_first()))
    }
}

/// Splits `input` into its command word and the words that follow it.
pub fn parse_command(input: &str) -> (r: Result<(String, Vec<String>), CommandError>)
    ensures
        match r {
            Ok((c, rest)) => command_words(input@) == Ok::<
                (Seq<char>, Seq<Seq<char>>),
                CommandErrorView,
            >((c@, views(rest@))),
            Err(e) => command_words(input@) == Err::<
                (Seq<char>, Seq<Seq<char>>),
                CommandErrorView,
            >(e@),
        },
{
    let mut ws = split_words(input);
    if ws.len() == 0 {
        return Err(CommandError::Empty);
    }
    let ghost all = views(ws@);
    let command = ws.remove(0);
    assert(views(ws@) =~= all.drop_first());
    Ok((command, ws))
}

/// The UDP target and the set of tickers that the arguments of `STREAM` ask for,
/// or why they are refused.
pub open spec fn command_parts_result(parts: Seq<Seq<char>>) -> Result<
    (SocketAddress, Set<Seq<char>>),
    CommandErrorView,
> {
    if parts.len() == 0 {
        Err(CommandErrorView::MissingUrl)
    } else if parts.len() == 1 {
        Err(CommandErrorView::MissingTickers)
    } else if parts.len() > 2 {
        Err(CommandErrorView::TooManyArguments)
    } else {
        match url_target(parts[0], false) {
            Err(e) => Err(e),
            Ok(a) => Ok((a, ticker_pieces(parts[1]).to_set())),
        }
    }
}

/// What a parse of `STREAM` arguments gives back, seen as plain values: the target
/// and the set of tickers.
pub open spec fn target_result_view(r: Result<(SocketAddress, Vec<String>), CommandError>) -> Result<
    (SocketAddress, Set<Seq<char>>),
    CommandErrorView,
> {
    match r {
        Ok((a, ts)) => Ok((a, views(ts@).to_set())),
        Err(e) => Err(e@),
    }
}

/// Reads the arguments of `STREAM`: the UDP URL and the comma-separated tickers.
/// The tickers come back once each.
pub fn parse_command_parts(parts: Vec<String>) -> (r: Result<
    (SocketAddress, Vec<String>),
    CommandError,
>)
    ensures
        target_result_view(r) == command_parts_result(views(parts@)),
        r matches Ok((_, ts)) ==> views(ts@).no_duplicates(),
{
    if parts.len() == 0 {
        return Err(CommandError::MissingUrl);
    }
    if parts.len() == 1 {
        return Err(CommandError::MissingTickers);
    }
    if parts.len() > 2 {
        return Err(CommandError::TooManyArguments);
    }
    assert(views(parts@)[0] == parts@[0]@ && views(parts@)[1] == parts@[1]@);
    let udp_addr = match resolve_url_target(parts[0].as_str(), false) {
        Ok(a) => a,
        Err(e) => {
            return Err(e);
        },
    };
    let tickers = split_tickers(parts[1].as_str());
    proof {
        lemma_pieces_len(parts@[1]@, Separator::Char(','));
    }
    if tickers.len() == 0 {
        return Err(CommandError::EmptyTickerList);
    }
    let tickers_set = distinct_strings(tickers);
    Ok((udp_addr, tickers_set))
}

/// Why `parse_tcp_command` refuses a line.
pub enum TcpCommandError {
    /// The command or its arguments could not be read.
    Parse(CommandError),
    /// The command word is not `STREAM`.
    WrongCommand(String),
}

/// `TcpCommandError` with its texts as character sequences.
pub enum TcpCommandErrorView {
    Parse(CommandErrorView),
    WrongCommand(Seq<char>),
}

impl View for TcpCommandError {
    type V = TcpCommandErrorView;

    open spec fn view(&self) -> TcpCommandErrorView {
        match self {
            TcpCommandError::Parse(e) => TcpCommandErrorView::Parse(e@),
            TcpCommandError::WrongCommand(c) => TcpCommandErrorView::WrongCommand(c@),
        }
    }
}

/// The text by which `parse_tcp_command` reports a refusal.
pub open spec fn tcp_error_text(e: TcpCommandErrorView) -> Seq<char> {
    match e {
        TcpCommandErrorView::Parse(inner) => "Failed to parse client command: "@ + error_text(inner),
        TcpCommandErrorView::WrongCommand(c) => "wrong command "@ + c,
    }
}

impl TcpCommandError {
    /// The text by which this refusal is reported.
    pub fn message(&self) -> (m: String)
        ensures
            m@ == tcp_error_text(self@),
    {
        match self {
            TcpCommandError::Parse(inner) => {
                let mut m = String::from_str("Failed to parse client command: ");
                let t = inner.message();
                m.append(t.as_str());
                m
            },
            TcpCommandError::WrongCommand(c) => {
                let mut m = String::from_str("wrong command ");
                m.append(c.as_str());
                m
            },
        }
    }
}

/// The outcome of reading a command line: the UDP target and the set of tickers,
/// or why the line is refused.
pub open spec fn tcp_command_result(input: Seq<char>) -> Result<
    (SocketAddress, Set<Seq<char>>),
    TcpCommandErrorView,
> {
    match command_words(input) {
        Err(e) => Err(TcpCommandErrorView::Parse(e)),
        Ok((command, parts)) => if command != "STREAM"@ {
            Err(TcpCommandErrorView::WrongCommand(command))
        } else {
            match command_parts_result(parts) {
                Err(e) => Err(TcpCommandErrorView::Parse(e)),
                Ok(v) => Ok(v),
            }
        },
    }
}

/// What `parse_tcp_command` gives back, seen as plain values.
pub open spec fn tcp_result_view(r: Result<(SocketAddress, Vec<String>), TcpCommandError>) -> Result<
    (SocketAddress, Set<Seq<char>>),
    TcpCommandErrorView,
> {
    match r {
        Ok((a, ts)) => Ok((a, views(ts@).to_set())),
        Err(e) => Err(e@),
    }
}

/// Reads a command line: only `STREAM` is accepted.
pub fn parse_tcp_command(input: &str) -> (r: Result<(SocketAddress, Vec<String>), TcpCommandError>)
    ensures
        tcp_result_view(r) == tcp_command_result(input@),
        r matches Ok((_, ts)) ==> views(ts@).no_duplicates(),
{
    let (command, parts) = match parse_command(input) {
        Ok(cp) => cp,
        Err(e) => {
            return Err(TcpCommandError::Parse(e));
        },
    };
    let stream = String::from_str("STREAM");
    if command != stream {
        return Err(TcpCommandError::WrongCommand(command));
    }
    match parse_command_parts(parts) {
        Ok(v) => Ok(v),
        Err(e) => Err(TcpCommandError::Parse(e)),
    }
}

/// Reads the line that a client sent, surrounding whitespace and line end included.
pub fn parse_tcp_line(line: &str) -> (r: Result<(SocketAddress, Vec<String>), TcpCommandError>)
    ensures
        tcp_result_view(r) == tcp_command_result(trim(line@)),
        r matches Ok((_, ts)) ==> views(ts@).no_duplicates(),
{
    let input = trim_str(line);
    parse_tcp_command(input.as_str())
}

/// The line by which the server accepts a stream: `OK` and the port on which it
/// expects the client's pings.
pub open spec fn stream_ack(ping_port: u16) -> Seq<char> {
    "OK "@ + decimal(ping_port as nat) + seq!['\n']
}

/// The line by which the server accepts a stream.
pub fn stream_ack_line(ping_port: u16) -> (r: String)
    ensures
        r@ == stream_ack(ping_port),
{
    let mut r = String::from_str("OK ");
    push_decimal(&mut r, ping_port as u64);
    string_push(&mut r, '\n');
    r
}

} // verus!
