//! The server front end that answers each command line: `STREAM` starts a stream
//! once the target and every requested ticker check out, `EXIT` says goodbye, and
//! anything else is answered with an error line.
use vstd::prelude::*;
use crate::address::SocketAddress;
use crate::command::{
    CommandError,
    CommandErrorView,
    error_text,
    url_target,
    ticker_pieces,
    resolve_url_target,
    split_tickers,
    contains_string,
    distinct_strings,
};
use crate::quotes::{TickerPrices, quote_views, filter_prices};
use crate::handler::{client_share, client_timed_out, timed_out, MAX_FAILED, PING_TIMEOUT_MS};
use crate::registry::{ClientRegistry, after_remove};
use crate::wire::{encode_quotes, serialize_quotes};
use crate::tcp_input::command_words;
use crate::text::{Separator, lemma_pieces_len, views, trim, trim_str};

verus! {

/// Splits `input` into its command word and the words that follow it.
pub fn parse_command(input: &str) -> (r: Result<(String, Vec<String>), CommandError>)
    ensures
        match r {
            Ok((c, rest)) => command_words(input@) == Ok::<
                (Seq<char>, Seq<Seq<char>>),
                CommandErrorView,
            >((c@, views(rest@))),
            Err(e) => command_words(input@) == Err::<
                (Seq<char>, Seq<Seq<char>>),
                CommandErrorView,
            >(e@),
        },
{
    crate::tcp_input::parse_command(input)
}

/// The first of the requested tickers that is refused, and why: an empty one, or
/// one that the server does not know.
pub open spec fn first_rejected(requested: Seq<Seq<char>>, known: Seq<Seq<char>>) -> Option<
    CommandErrorView,
>
    decreases requested.len(),
{
    if requested.len() == 0 {
        None
    } else if requested[0].len() == 0 {
        Some(CommandErrorView::EmptyTicker)
    } else if !known.contains(requested[0]) {
        Some(CommandErrorView::UnknownTicker(requested[0]))
    } else {
        first_rejected(requested.drop_first(), known)
    }
}

/// The view of the server's ticker list, or of why it could not be read.
pub open spec fn known_view(known: Result<Vec<String>, String>) -> Result<Seq<Seq<char>>, Seq<char>> {
    match known {
        Ok(v) => Ok(views(v@)),
        Err(e) => Err(e@),
    }
}

/// The outcome of the arguments of `STREAM`, checked against the tickers the
/// server knows: the UDP target and the set of tickers the client asked for, or
/// why they are refused.
pub open spec fn stream_cmd_result(
    parts: Seq<Seq<char>>,
    known: Result<Seq<Seq<char>>, Seq<char>>,
) -> Result<(SocketAddress, Set<Seq<char>>), CommandErrorView> {
    if parts.len() == 0 {
        Err(CommandErrorView::MissingUrl)
    } else if parts.len() == 1 {
        Err(CommandErrorView::MissingTickers)
    } else if parts.len() > 2 {
        Err(CommandErrorView::TooManyArguments)
    } else {
        match url_target(parts[0], true) {
            Err(e) => Err(e),
            Ok(a) => match known {
                Err(reason) => Err(CommandErrorView::TickersFileUnreadable(reason)),
                Ok(k) => match first_rejected(ticker_pieces(parts[1]), k) {
                    Some(e) => Err(e),
                    None => Ok((a, ticker_pieces(parts[1]).to_set())),
                },
            },
        }
    }
}

/// What `handle_stream_cmd` gives back, seen as plain values.
pub open spec fn stream_cmd_view(r: Result<(SocketAddress, Vec<String>), CommandError>) -> Result<
    (SocketAddress, Set<Seq<char>>),
    CommandErrorView,
> {
    match r {
        Ok((a, k)) => Ok((a, views(k@).to_set())),
        Err(e) => Err(e@),
    }
}

/// The first refused ticker of `requested`.
fn check_tickers(requested: &Vec<String>, known: &Vec<String>) -> (r: Option<CommandError>)
    ensures
        match r {
            Some(e) => first_rejected(views(requested@), views(known@)) == Some(e@),
            None => first_rejected(views(requested@), views(known@)) is None,
        },
{
    let ghost all = views(requested@);
    let ghost k = views(known@);
    let mut i: usize = 0;
    assert(all.skip(0) =~= all);
    while i < requested.len()
        invariant
            i <= requested@.len(),
            all == views(requested@),
            k == views(known@),
            first_rejected(all, k) == first_rejected(all.skip(i as int), k),
        decreases requested.len() - i,
    {
        let t = &requested[i];
        assert(all.skip(i as int)[0] == t@);
        assert(all.skip(i as int).drop_first() =~= all.skip(i + 1));
        if t.as_str().is_empty() {
            return Some(CommandError::EmptyTicker);
        }
        if !contains_string(known, t) {
            return Some(CommandError::UnknownTicker(t.clone()));
        }
        i = i + 1;
    }
    assert(all.skip(i as int).len() == 0);
    None
}

/// Reads the arguments of `STREAM`, the UDP URL and the comma-separated tickers,
/// and checks each ticker against `known`, the server's ticker list as read from
/// its file (or why that file could not be read). On success it answers the UDP
/// target and the tickers the client asked for, each once.
pub fn handle_stream_cmd(parts: Vec<String>, known: Result<Vec<String>, String>) -> (r: Result<
    (SocketAddress, Vec<String>),
    CommandError,
>)
    ensures
        stream_cmd_view(r) == stream_cmd_result(views(parts@), known_view(known)),
        r matches Ok((_, ts)) ==> views(ts@).no_duplicates(),
{
    if parts.len() == 0 {
        return Err(CommandError::MissingUrl);
    }
    if parts.len() == 1 {
        return Err(CommandError::MissingTickers);
    }
    if parts.len() > 2 {
        return Err(CommandError::TooManyArguments);
    }
    assert(views(parts@)[0] == parts@[0]@ && views(parts@)[1] == parts@[1]@);
    let udp_addr = match resolve_url_target(parts[0].as_str(), true) {
        Ok(a) => a,
        Err(e) => {
            return Err(e);
        },
    };
    let tickers = split_tickers(parts[1].as_str());
    proof {
        lemma_pieces_len(parts@[1]@, Separator::Char(','));
    }
    if tickers.len() == 0 {
        return Err(CommandError::EmptyTickerList);
    }
    let tickers_list = match known {
        Ok(k) => k,
        Err(reason) => {
            return Err(CommandError::TickersFileUnreadable(reason));
        },
    };
    match check_tickers(&tickers, &tickers_list) {
        Some(e) => Err(e),
        None => Ok((udp_addr, distinct_strings(tickers))),
    }
}

/// The line by which the server reports an error: `ERROR: <msg>` and a line end.
pub open spec fn error_line(msg: Seq<char>) -> Seq<char> {
    "ERROR: "@ + msg + "\n"@
}

/// The line by which the server reports an error.
pub fn error_line_for(msg: &str) -> (r: String)
    ensures
        r@ == error_line(msg@),
{
    let mut r = String::from_str("ERROR: ");
    r.append(msg);
    r.append("\n");
    r
}

/// How the server answers a command line.
pub enum Opening {
    /// Send this line to the client and close the connection.
    Reply(String),
    /// Stream quotes of these tickers, each once, to this UDP target.
    Stream(SocketAddress, Vec<String>),
}

/// `Opening` seen as plain values.
pub enum OpeningView {
    Reply(Seq<char>),
    Stream(SocketAddress, Set<Seq<char>>),
}

impl View for Opening {
    type V = OpeningView;

    open spec fn view(&self) -> OpeningView {
        match self {
            Opening::Reply(s) => OpeningView::Reply(s@),
            Opening::Stream(a, k) => OpeningView::Stream(*a, views(k@).to_set()),
        }
    }
}

/// How the server answers the command line `line` (line end included), given its
/// ticker list `known`.
pub open spec fn opening(line: Seq<char>, known: Result<Seq<Seq<char>>, Seq<char>>) -> OpeningView {
    let input = trim(line);
    if input.len() == 0 {
        OpeningView::Reply(error_line("command is empty"@))
    } else {
        match command_words(input) {
            Err(e) => OpeningView::Reply(error_line(error_text(e))),
            Ok((command, parts)) => if command == "STREAM"@ {
                match stream_cmd_result(parts, known) {
                    Err(e) => OpeningView::Reply(error_line(error_text(e))),
                    Ok((a, k)) => OpeningView::Stream(a, k),
                }
            } else if command == "EXIT"@ {
                OpeningView::Reply("OK: goodbye\n"@)
            } else {
                OpeningView::Reply(error_line(error_text(CommandErrorView::WrongCommand(command))))
            },
        }
    }
}

/// Answers the command line that a client sent.
pub fn respond_to_command(line: &str, known: Result<Vec<String>, String>) -> (r: Opening)
    ensures
        r@ == opening(line@, known_view(known)),
        r matches Opening::Stream(_, ts) ==> views(ts@).no_duplicates(),
{
    let input = trim_str(line);
    if input.as_str().is_empty() {
        return Opening::Reply(error_line_for("command is empty"));
    }
    let (command, parts) = match parse_command(input.as_str()) {
        Ok(cp) => cp,
        Err(e) => {
            let m = e.message();
            return Opening::Reply(error_line_for(m.as_str()));
        },
    };
    let stream = String::from_str("STREAM");
    let exit = String::from_str("EXIT");
    if command == stream {
        match handle_stream_cmd(parts, known) {
            Err(e) => {
                let m = e.message();
                Opening::Reply(error_line_for(m.as_str()))
            },
            Ok((a, k)) => Opening::Stream(a, k),
        }
    } else if command == exit {
        Opening::Reply(String::from_str("OK: goodbye\n"))
    } else {
        let m = CommandError::WrongCommand(command).message();
        Opening::Reply(error_line_for(m.as_str()))
    }
}

/// Whether the command line `line` is a `STREAM` command, the one answer that
/// depends on the server's ticker list.
pub open spec fn is_stream_line(line: Seq<char>) -> bool {
    let input = trim(line);
    input.len() > 0 && match command_words(input) {
        Ok((command, _)) => command == "STREAM"@,
        Err(_) => false,
    }
}

/// Whether answering the command line `line` needs the server's ticker list.
pub fn reads_ticker_list(line: &str) -> (b: bool)
    ensures
        b == is_stream_line(line@),
{
    let input = trim_str(line);
    if input.as_str().is_empty() {
        return false;
    }
    match parse_command(input.as_str()) {
        Ok((command, _)) => {
            let stream = String::from_str("STREAM");
            command == stream
        },
        Err(_) => false,
    }
}

/// What the stream does with a round of quotes.
pub enum LegacyStep {
    /// Send this datagram.
    Send(Vec<u8>),
    /// Send this error line to the client and end the stream.
    Close(String),
    /// Send nothing this round; a failure was counted.
    Skip,
}

/// The state of a stream as this front end runs it: how many failures have
/// happened so far; they are never forgiven.
pub struct LegacyStream {
    pub failed_count: u32,
}

impl LegacyStream {
    /// A fresh stream.
    pub fn new() -> (s: Self)
        ensures
            s.failed_count == 0,
    {
        LegacyStream { failed_count: 0 }
    }

    /// The error line with which the stream ends when too many failures have happened.
    pub fn give_up(&self) -> (r: Option<String>)
        ensures
            self.failed_count > MAX_FAILED ==> (r matches Some(m) && m@ == error_line(
                "To much handle client errors"@,
            )),
            self.failed_count <= MAX_FAILED ==> r is None,
    {
        if self.failed_count > MAX_FAILED {
            Some(error_line_for("To much handle client errors"))
        } else {
            None
        }
    }

    /// Records a failure to receive a round.
    pub fn on_receive_error(&mut self)
        requires
            old(self).failed_count <= MAX_FAILED,
        ensures
            final(self).failed_count == old(self).failed_count + 1,
    {
        self.failed_count = self.failed_count + 1;
    }

    /// Handles a round of quotes for a client with `tickers`.
    pub fn on_round(&mut self, prices: TickerPrices, tickers: &Vec<String>) -> (r: LegacyStep)
        requires
            old(self).failed_count <= MAX_FAILED,
        ensures
            final(self).failed_count == old(self).failed_count,
            client_share(quote_views(prices@), views(tickers@)).len() == 0 ==> (r matches LegacyStep::Close(m)
                && m@ == error_line("no tickers were found"@)),
            client_share(quote_views(prices@), views(tickers@)).len() > 0 ==> (r matches LegacyStep::Send(b)
                && b@ == encode_quotes(client_share(quote_views(prices@), views(tickers@)))),
    {
        let filtered = filter_prices(prices, tickers);
        if filtered.len() == 0 {
            return LegacyStep::Close(error_line_for("no tickers were found"));
        }
        match serialize_quotes(filtered) {
            Ok(b) => LegacyStep::Send(b),
            Err(_) => {
                self.failed_count = self.failed_count + 1;
                LegacyStep::Skip
            },
        }
    }

    /// Whether the stream to `addr` ends after a wait for quotes ended without a
    /// round: it ends when the client has stopped pinging at `now`, and the client
    /// then leaves the registry; otherwise the registry is unchanged.
    pub fn on_timeout(&self, registry: &mut ClientRegistry, addr: SocketAddress, now: u64) -> (stop: bool)
        ensures
            stop == timed_out(old(registry).view(), addr, PING_TIMEOUT_MS, now),
            stop ==> final(registry).view() == after_remove(old(registry).view(), addr),
            !stop ==> final(registry).view() == old(registry).view(),
    {
        let stop = client_timed_out(registry, &addr, PING_TIMEOUT_MS, now);
        if stop {
            let _removed = registry.remove_client(addr);
        }
        stop
    }

    /// Records the outcome of a send: a failure adds one; success changes nothing.
    pub fn on_sent(&mut self, sent: bool)
        requires
            old(self).failed_count <= MAX_FAILED,
        ensures
            sent ==> final(self).failed_count == old(self).failed_count,
            !sent ==> final(self).failed_count == old(self).failed_count + 1,
    {
        if !sent {
            self.failed_count = self.failed_count + 1;
        }
    }
}

} // verus!
