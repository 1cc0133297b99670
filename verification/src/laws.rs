//! Properties that span several parts of the library.
use vstd::prelude::*;
use crate::address::{SocketAddress, port_of, parsed_socket_address, parsed_url};
use crate::command::{CommandErrorView, url_target, ticker_pieces};
use crate::text::{
    Separator,
    is_space,
    pieces,
    words,
    non_empty,
    trim,
    trim_start,
    trim_end,
    join,
    lemma_pieces_single,
    lemma_pieces_concat,
    lemma_pieces_of_join,
};
use crate::tcp_input::{TcpCommandErrorView, tcp_command_result, command_words, command_parts_result};
use crate::client::stream_command_text;
use crate::response::{accepts_stream, is_digit, digits_value, is_port_text};
use crate::tcp_input::stream_ack;
use crate::text::{decimal, digit_char};
use crate::registry::{ClientInfo, elapsed, after_add, after_remove};
use crate::quotes::{QuoteView, wanted, ticker_le};
use crate::ticker_list::ticker_list;
use crate::wire::{encodable, encode_quotes, law_encoding_is_unambiguous};
use crate::server::{is_stream_line, opening, stream_cmd_result, first_rejected};
use crate::handler::{client_share, timed_out, failures_after, MAX_FAILED};

verus! {

proof fn lemma_join_chars(ws: Seq<Seq<char>>, c: char, k: int)
    requires
        0 <= k < join(ws, c).len(),
    ensures
        join(ws, c)[k] == c || exists|i: int, m: int|
            0 <= i < ws.len() && 0 <= m < ws[i].len() && #[trigger] ws[i][m] == join(ws, c)[k],
    decreases ws.len(),
{
    if ws.len() == 1 {
        assert(ws[0][k] == join(ws, c)[k]);
    } else if ws.len() > 1 {
        let init = ws.drop_last();
        let head = join(init, c).push(c);
        if k < join(init, c).len() {
            lemma_join_chars(init, c, k);
            if join(init, c)[k] != c {
                let (i, m) = choose|i: int, m: int|
                    0 <= i < init.len() && 0 <= m < init[i].len() && #[trigger] init[i][m] == join(
                        init,
                        c,
                    )[k];
                assert(ws[i][m] == join(ws, c)[k]);
            }
        } else if k > join(init, c).len() {
            let m = k - head.len();
            assert(ws[ws.len() - 1][m] == join(ws, c)[k]);
        }
    }
}

proof fn lemma_join_last(ws: Seq<Seq<char>>, c: char)
    requires
        ws.len() >= 1,
        ws.last().len() > 0,
    ensures
        join(ws, c).len() > 0,
        join(ws, c).last() == ws.last().last(),
{
}

proof fn lemma_filter_all(s: Seq<Seq<char>>)
    requires
        forall|i: int| 0 <= i < s.len() ==> non_empty(#[trigger] s[i]),
    ensures
        s.filter(|w: Seq<char>| non_empty(w)) == s,
    decreases s.len(),
{
    reveal(Seq::filter);
    if s.len() > 0 {
        let init = s.drop_last();
        assert forall|i: int| 0 <= i < init.len() implies non_empty(#[trigger] init[i]) by {
            assert(init[i] == s[i]);
        }
        lemma_filter_all(init);
        assert(init.push(s.last()) =~= s);
    }
}

proof fn lemma_no_space_join(tickers: Seq<Seq<char>>)
    requires
        forall|i: int, m: int|
            0 <= i < tickers.len() && 0 <= m < tickers[i].len() ==> !is_space(#[trigger] tickers[i][m]),
    ensures
        forall|k: int| 0 <= k < join(tickers, ',').len() ==> !is_space(#[trigger] join(tickers, ',')[k]),
{
    assert forall|k: int| 0 <= k < join(tickers, ',').len() implies !is_space(
        #[trigger] join(tickers, ',')[k],
    ) by {
        lemma_join_chars(tickers, ',', k);
    }
}

proof fn lemma_command_trim(addr: Seq<char>, j: Seq<char>)
    requires
        j.len() > 0,
        !is_space(j.last()),
    ensures
        trim(stream_command_text(addr, j)) == "STREAM"@.push(' ') + (("udp://"@ + addr).push(' ') + j),
{
    reveal_strlit("STREAM udp://");
    reveal_strlit("STREAM");
    reveal_strlit("udp://");
    let text = stream_command_text(addr, j);
    let body = "STREAM"@.push(' ') + (("udp://"@ + addr).push(' ') + j);
    assert(text =~= body.push('\n'));
    assert(text.len() > 0 && !is_space(text[0]));
    assert(trim_start(text) == text);
    assert(text.drop_last() =~= body);
    assert(body.last() == j.last());
    assert(trim_end(body) == body);
    assert(trim_end(text) == trim_end(body));
}

proof fn lemma_command_words(addr: Seq<char>, j: Seq<char>)
    requires
        addr.len() > 0,
        forall|k: int| 0 <= k < addr.len() ==> !is_space(#[trigger] addr[k]),
        j.len() > 0,
        forall|k: int| 0 <= k < j.len() ==> !is_space(#[trigger] j[k]),
    ensures
        words("STREAM"@.push(' ') + (("udp://"@ + addr).push(' ') + j)) == seq![
            "STREAM"@,
            "udp://"@ + addr,
            j,
        ],
{
    reveal_strlit("STREAM");
    reveal_strlit("udp://");
    let ws = Separator::Whitespace;
    let url = "udp://"@ + addr;
    let stream = "STREAM"@;
    assert forall|k: int| 0 <= k < stream.len() implies !crate::text::separates(ws, #[trigger] stream[k]) by {}
    lemma_pieces_single(stream, ws);
    assert forall|k: int| 0 <= k < url.len() implies !crate::text::separates(ws, #[trigger] url[k]) by {
        if k >= 6 {
            assert(url[k] == addr[k - 6]);
        }
    }
    lemma_pieces_single(url, ws);
    assert forall|k: int| 0 <= k < j.len() implies !crate::text::separates(ws, #[trigger] j[k]) by {}
    lemma_pieces_single(j, ws);
    lemma_pieces_concat(url, ' ', j, ws);
    lemma_pieces_concat(stream, ' ', url.push(' ') + j, ws);
    let ps = seq![stream, url, j];
    assert(pieces(stream.push(' ') + (url.push(' ') + j), ws) =~= ps);
    lemma_filter_all(ps);
}

/// What the server reads from the command that the client sends: the client's
/// `STREAM udp://<addr> <t1>,<t2>,...` command, line end included, asks for the
/// target that `udp://<addr>` names and for exactly the client's tickers; when that
/// URL names no target, the server refuses it for the URL's reason. This holds when
/// the address is a non-empty text without whitespace and each ticker is a
/// non-empty text without whitespace or commas.
pub proof fn law_stream_command_is_understood(addr: Seq<char>, tickers: Seq<Seq<char>>)
    requires
        addr.len() > 0,
        forall|k: int| 0 <= k < addr.len() ==> !is_space(#[trigger] addr[k]),
        tickers.len() >= 1,
        forall|i: int| 0 <= i < tickers.len() ==> (#[trigger] tickers[i]).len() > 0,
        forall|i: int, m: int|
            0 <= i < tickers.len() && 0 <= m < tickers[i].len() ==> !is_space(#[trigger] tickers[i][m])
                && tickers[i][m] != ',',
    ensures
        tcp_command_result(trim(stream_command_text(addr, join(tickers, ',')))) == match url_target(
            "udp://"@ + addr,
            false,
        ) {
            Err(e) => Err(TcpCommandErrorView::Parse(e)),
            Ok(a) => Ok::<(SocketAddress, Set<Seq<char>>), TcpCommandErrorView>((a, tickers.to_set())),
        },
{
    let j = join(tickers, ',');
    lemma_no_space_join(tickers);
    lemma_join_last(tickers, ',');
    lemma_command_trim(addr, j);
    lemma_command_words(addr, j);
    let body = "STREAM"@.push(' ') + (("udp://"@ + addr).push(' ') + j);
    let parts = seq!["udp://"@ + addr, j];
    assert(seq!["STREAM"@, "udp://"@ + addr, j].drop_first() =~= parts);
    assert(command_words(body) == Ok::<(Seq<char>, Seq<Seq<char>>), CommandErrorView>(
        ("STREAM"@, parts),
    ));
    lemma_pieces_of_join(tickers, ',');
    assert(ticker_pieces(j) == tickers);
    assert(parts[0] == "udp://"@ + addr && parts[1] == j);
}

/// Registering a client and then removing it leaves the registry as it was.
pub proof fn law_add_then_remove_restores(registry: Map<SocketAddress, ClientInfo>, client: ClientInfo)
    requires
        !registry.dom().contains(client.addr),
    ensures
        after_remove(after_add(registry, client), client.addr) == registry,
{
    assert(after_remove(after_add(registry, client), client.addr) =~= registry);
}

/// Once a client is registered, its address is taken: a second `add_client` with
/// the same address is refused and changes nothing, and `get` finds the first client.
pub proof fn law_registered_address_is_taken(
    registry: Map<SocketAddress, ClientInfo>,
    client: ClientInfo,
    other: ClientInfo,
)
    requires
        !registry.dom().contains(client.addr),
        other.addr == client.addr,
    ensures
        after_add(registry, client).dom().contains(other.addr),
        after_add(after_add(registry, client), other) == after_add(registry, client),
        after_add(registry, client)[client.addr] == client,
{
}

/// Once a client is removed, its address is free: a second `remove_client` is
/// refused and changes nothing, and `get` finds nothing there.
pub proof fn law_removed_address_is_free(registry: Map<SocketAddress, ClientInfo>, addr: SocketAddress)
    ensures
        !after_remove(registry, addr).dom().contains(addr),
        after_remove(after_remove(registry, addr), addr) == after_remove(registry, addr),
{
    assert(after_remove(after_remove(registry, addr), addr) =~= after_remove(registry, addr));
}

/// Whether every registered client is registered under its own address.
pub open spec fn keyed_by_own_addr(registry: Map<SocketAddress, ClientInfo>) -> bool {
    forall|a: SocketAddress| #[trigger] registry.dom().contains(a) ==> registry[a].addr == a
}

/// Every client that `get` finds is registered under its own address, in every
/// registry reached from `new` by `add_client`, `remove_client`, recorded pings and
/// changes through `get_mut` that keep the client's address: the empty registry
/// has the property, and each of these steps keeps it.
pub proof fn law_clients_keyed_by_own_addr(
    registry: Map<SocketAddress, ClientInfo>,
    client: ClientInfo,
    addr: SocketAddress,
    changed: ClientInfo,
    now: u64,
)
    ensures
        keyed_by_own_addr(Map::<SocketAddress, ClientInfo>::empty()),
        keyed_by_own_addr(registry) ==> keyed_by_own_addr(after_add(registry, client)),
        keyed_by_own_addr(registry) ==> keyed_by_own_addr(after_remove(registry, addr)),
        keyed_by_own_addr(registry) && registry.dom().contains(addr) && changed.addr
            == registry[addr].addr ==> keyed_by_own_addr(registry.insert(addr, changed)),
        keyed_by_own_addr(registry) && registry.dom().contains(addr) ==> keyed_by_own_addr(
            registry.insert(addr, ClientInfo { last_ping: now, ..registry[addr] }),
        ),
        keyed_by_own_addr(registry) && registry.dom().contains(addr) ==> registry[addr].addr == addr,
{
}

/// A ping keeps a client's stream alive: right after a ping recorded at `ping`,
/// the client does not time out at any `now` from `ping` up to `ping + timeout`,
/// and the ping changes no other client.
pub proof fn law_ping_keeps_alive(
    registry: Map<SocketAddress, ClientInfo>,
    addr: SocketAddress,
    ping: u64,
    timeout: u64,
    now: u64,
    other: SocketAddress,
)
    requires
        registry.dom().contains(addr),
        ping <= now,
        now - ping <= timeout,
    ensures
        !timed_out(
            registry.insert(addr, ClientInfo { last_ping: ping, ..registry[addr] }),
            addr,
            timeout,
            now,
        ),
        other != addr ==> registry.insert(addr, ClientInfo { last_ping: ping, ..registry[addr] })[other]
            == registry[other],
{
}

/// A client that is not registered has no stream to keep alive: it counts as
/// timed out at any time.
pub proof fn law_unregistered_client_times_out(
    registry: Map<SocketAddress, ClientInfo>,
    addr: SocketAddress,
    timeout: u64,
    now: u64,
)
    requires
        !registry.dom().contains(addr),
    ensures
        timed_out(registry, addr, timeout, now),
{
}

/// A stream gives up exactly when more than `MAX_FAILED` sends in a row have
/// failed: after a run of outcomes, the count is the number of failures since
/// the last success (or since the start).
pub proof fn law_failures_count_since_last_success(outcomes: Seq<bool>, k: int)
    requires
        0 <= k <= outcomes.len(),
        forall|i: int| k <= i < outcomes.len() ==> !#[trigger] outcomes[i],
        k > 0 ==> outcomes[k - 1],
    ensures
        failures_after(0, outcomes) == outcomes.len() - k,
        failures_after(0, outcomes) > MAX_FAILED <==> outcomes.len() - k > MAX_FAILED,
    decreases outcomes.len(),
{
    if outcomes.len() > k {
        let init = outcomes.drop_last();
        assert forall|i: int| k <= i < init.len() implies !#[trigger] init[i] by {
            assert(init[i] == outcomes[i]);
        }
        if k > 0 {
            assert(init[k - 1] == outcomes[k - 1]);
        }
        law_failures_count_since_last_success(init, k);
    } else if k > 0 {
        assert(outcomes.last() == outcomes[k - 1]);
    }
}

/// Filtered streaming: the quotes that a client is sent from a round are exactly
/// the round's quotes whose ticker the client asked for.
pub proof fn law_client_gets_only_its_tickers(prices: Seq<QuoteView>, tickers: Seq<Seq<char>>, q: QuoteView)
    ensures
        client_share(prices, tickers).contains(q) <==> prices.contains(q) && tickers.contains(q.0),
{
    broadcast use vstd::seq_lib::group_filter_ensures;

    let keep = |x: QuoteView| wanted(tickers, x);
    if client_share(prices, tickers).contains(q) {
        prices.lemma_filter_contains_rev(keep, q);
        let i = choose|i: int| 0 <= i < prices.filter(keep).len() && prices.filter(keep)[i] == q;
        assert(keep(prices.filter(keep)[i]));
    }
    if prices.contains(q) && tickers.contains(q.0) {
        let i = choose|i: int| 0 <= i < prices.len() && prices[i] == q;
        assert(keep(prices[i]));
    }
}

/// What the client reads back from a datagram is what the server wrote into it:
/// the datagram of a round decodes, and what it decodes to is that round, with
/// nothing left over.
pub proof fn law_datagram_round_trip(sent: Seq<QuoteView>, read: Seq<QuoteView>, rest: Seq<u8>)
    requires
        encodable(sent),
        encodable(read),
        encode_quotes(sent) == encode_quotes(read) + rest,
    ensures
        read == sent,
        rest == Seq::<u8>::empty(),
{
    assert(encode_quotes(sent) + Seq::<u8>::empty() =~= encode_quotes(sent));
    law_encoding_is_unambiguous(sent, Seq::<u8>::empty(), read, rest);
}

proof fn lemma_decimal_digits(n: nat)
    ensures
        forall|i: int| 0 <= i < decimal(n).len() ==> is_digit(#[trigger] decimal(n)[i]),
        digits_value(decimal(n)) == n,
        decimal(n).len() >= 1,
    decreases n,
{
    let d = (n % 10) as nat;
    let c = digit_char(d);
    assert((c as u32) == 48 + d);
    assert(decimal(n).last() == c);
    if n >= 10 {
        lemma_decimal_digits(n / 10);
        let init = decimal(n / 10);
        assert(decimal(n).drop_last() =~= init);
        assert forall|i: int| 0 <= i < decimal(n).len() implies is_digit(#[trigger] decimal(n)[i]) by {
            if i < init.len() {
                assert(decimal(n)[i] == init[i]);
            }
        }
        assert(digits_value(decimal(n)) == digits_value(init) * 10 + d);
        assert(n == (n / 10) * 10 + n % 10);
    } else {
        assert(decimal(n).drop_last() =~= Seq::<char>::empty());
        assert(digits_value(decimal(n)) == digits_value(Seq::<char>::empty()) * 10 + d);
    }
}

proof fn lemma_decimal_step(n: nat)
    ensures
        n < 10 ==> decimal(n).len() == 1,
        n >= 10 ==> decimal(n).len() == decimal(n / 10).len() + 1,
{
}

proof fn lemma_decimal_short(n: nat)
    requires
        n <= 65535,
    ensures
        decimal(n).len() <= 5,
{
    let n1 = n / 10;
    let n2 = n1 / 10;
    let n3 = n2 / 10;
    let n4 = n3 / 10;
    assert(n4 < 10);
    lemma_decimal_step(n4);
    lemma_decimal_step(n3);
    lemma_decimal_step(n2);
    lemma_decimal_step(n1);
    lemma_decimal_step(n);
    assert(decimal(n3).len() <= 2);
    assert(decimal(n2).len() <= 3);
    assert(decimal(n1).len() <= 4);
}

/// The line by which the server accepts a stream is read by the client as
/// acceptance, for every ping port.
pub proof fn law_stream_ack_is_accepted(ping_port: u16)
    ensures
        accepts_stream(trim(stream_ack(ping_port))),
{
    reveal_strlit("OK ");
    let d = decimal(ping_port as nat);
    lemma_decimal_digits(ping_port as nat);
    lemma_decimal_short(ping_port as nat);
    let body = "OK "@ + d;
    let line = stream_ack(ping_port);
    assert(line =~= body.push('\n'));
    assert(!crate::text::is_space(line[0]));
    assert(trim_start(line) == line);
    assert(line.drop_last() =~= body);
    assert(body.last() == d.last());
    assert(is_digit(d[d.len() - 1]));
    assert(trim_end(body) == body);
    assert(trim_end(line) == trim_end(body));
    assert(body.take(3) =~= "OK "@);
    assert(body.skip(3) =~= d);
    assert(is_port_text(d));
}

/// Only a `STREAM` command is answered from the server's ticker list: the answer
/// to any other command line is the same whatever the list holds, or whether it
/// could be read at all.
pub proof fn law_only_stream_reads_tickers(
    line: Seq<char>,
    known: Result<Seq<Seq<char>>, Seq<char>>,
    other: Result<Seq<Seq<char>>, Seq<char>>,
)
    requires
        !is_stream_line(line),
    ensures
        opening(line, known) == opening(line, other),
{
}

/// Tickers sort in lexicographic order of their character codes: `a` sorts before
/// or with `b` exactly when `a` is a prefix of `b`, or when at the first position
/// where they differ the character of `a` has the smaller code.
pub proof fn law_ticker_order_is_lexicographic(a: Seq<char>, b: Seq<char>)
    ensures
        ticker_le(a, b) == ((a.len() <= b.len() && b.take(a.len() as int) == a) || exists|i: int|
            0 <= i < a.len() && i < b.len() && a.take(i) == b.take(i) && (a[i] as u32) < (b[i] as u32)),
    decreases a.len(),
{
    let prefix = a.len() <= b.len() && b.take(a.len() as int) == a;
    let differs = exists|i: int|
        0 <= i < a.len() && i < b.len() && a.take(i) == b.take(i) && (a[i] as u32) < (b[i] as u32);
    if a.len() == 0 {
        assert(b.take(0) =~= a);
    } else if b.len() == 0 {
        assert(!prefix);
        assert(!differs);
    } else if (a[0] as u32) < (b[0] as u32) {
        assert(a.take(0) =~= b.take(0));
        assert(differs);
    } else if a[0] == b[0] {
        let (x, y) = (a.drop_first(), b.drop_first());
        law_ticker_order_is_lexicographic(x, y);
        let prefix_tail = x.len() <= y.len() && y.take(x.len() as int) == x;
        let differs_tail = exists|i: int|
            0 <= i < x.len() && i < y.len() && x.take(i) == y.take(i) && (x[i] as u32) < (y[i] as u32);
        if prefix_tail {
            assert(b.take(a.len() as int) =~= a) by {
                assert forall|k: int| 0 <= k < a.len() implies #[trigger] b.take(a.len() as int)[k] == a[k] by {
                    if k > 0 {
                        assert(y.take(x.len() as int)[k - 1] == x[k - 1]);
                    }
                }
            }
        }
        if prefix {
            assert(y.take(x.len() as int) =~= x) by {
                assert forall|k: int| 0 <= k < x.len() implies #[trigger] y.take(x.len() as int)[k] == x[k] by {
                    assert(b.take(a.len() as int)[k + 1] == a[k + 1]);
                }
            }
        }
        if differs_tail {
            let i = choose|i: int|
                0 <= i < x.len() && i < y.len() && x.take(i) == y.take(i) && (x[i] as u32) < (y[i] as u32);
            assert(a.take(i + 1) =~= b.take(i + 1)) by {
                assert forall|k: int| 0 <= k < i + 1 implies #[trigger] a.take(i + 1)[k] == b.take(i + 1)[k] by {
                    if k > 0 {
                        assert(x.take(i)[k - 1] == y.take(i)[k - 1]);
                    }
                }
            }
            assert(differs);
        }
        if differs {
            let i = choose|i: int|
                0 <= i < a.len() && i < b.len() && a.take(i) == b.take(i) && (a[i] as u32) < (b[i] as u32);
            assert(i != 0);
            assert(x.take(i - 1) =~= y.take(i - 1)) by {
                assert forall|k: int| 0 <= k < i - 1 implies #[trigger] x.take(i - 1)[k] == y.take(i - 1)[k] by {
                    assert(a.take(i)[k + 1] == b.take(i)[k + 1]);
                }
            }
            assert(differs_tail);
        }
    } else {
        vstd::utf8::char_u32_cast(a[0], a[0] as u32);
        vstd::utf8::char_u32_cast(b[0], b[0] as u32);
        if prefix {
            assert(b.take(a.len() as int)[0] == a[0]);
        }
        if differs {
            let i = choose|i: int|
                0 <= i < a.len() && i < b.len() && a.take(i) == b.take(i) && (a[i] as u32) < (b[i] as u32);
            if i > 0 {
                assert(a.take(i)[0] == b.take(i)[0]);
            }
        }
    }
}

proof fn lemma_unique_after_seen(s: Seq<Seq<char>>, seen: Seq<Seq<char>>)
    requires
        seen.no_duplicates(),
    ensures
        s.remove_duplicates(seen).no_duplicates(),
    decreases s.len(),
{
    if s.len() > 0 {
        if seen.contains(s[0]) {
            lemma_unique_after_seen(s.skip(1), seen);
        } else {
            let more = seen + seq![s[0]];
            assert forall|i: int, j: int| 0 <= i < more.len() && 0 <= j < more.len() && i != j implies more[i]
                != more[j] by {
                if i == seen.len() {
                    assert(seen[j] == more[j]);
                } else if j == seen.len() {
                    assert(seen[i] == more[i]);
                }
            }
            lemma_unique_after_seen(s.skip(1), more);
        }
    }
}

/// A ticker file's list holds the trimmed text of every non-blank line, nothing
/// that no line names, and no ticker twice.
pub proof fn law_ticker_list_holds_every_named_ticker(lines: Seq<Seq<char>>)
    ensures
        forall|i: int|
            0 <= i < lines.len() && #[trigger] trim(lines[i]).len() > 0 ==> ticker_list(lines).contains(
                trim(lines[i]),
            ),
        forall|t: Seq<char>| #[trigger]
            ticker_list(lines).contains(t) ==> t.len() > 0 && exists|i: int|
                0 <= i < lines.len() && trim(lines[i]) == t,
        ticker_list(lines).no_duplicates(),
{
    let trimmed = lines.map_values(|l: Seq<char>| trim(l));
    let keep = |t: Seq<char>| non_empty(t);
    let named = trimmed.filter(keep);
    named.lemma_remove_duplicates_properties(Seq::<Seq<char>>::empty());
    assert(named + Seq::<Seq<char>>::empty() =~= named);
    assert forall|i: int| 0 <= i < lines.len() && #[trigger] trim(lines[i]).len() > 0 implies ticker_list(
        lines,
    ).contains(trim(lines[i])) by {
        assert(trimmed[i] == trim(lines[i]));
        assert(keep(trimmed[i]));
        trimmed.lemma_filter_contains(keep, i);
        assert(named.contains(trimmed[i]));
    }
    assert forall|t: Seq<char>| #[trigger] ticker_list(lines).contains(t) implies t.len() > 0 && exists|i: int|
        0 <= i < lines.len() && trim(lines[i]) == t by {
        assert(named.contains(t));
        let k = choose|k: int| 0 <= k < named.len() && named[k] == t;
        trimmed.lemma_filter_pred(keep, k);
        trimmed.lemma_filter_contains_rev(keep, t);
        let i = choose|i: int| 0 <= i < trimmed.len() && trimmed[i] == t;
        assert(trim(lines[i]) == t);
    }
    lemma_unique_after_seen(named, Seq::<Seq<char>>::empty());
}

/// Whether a requested ticker is one that the server grants: non-empty and known.
pub open spec fn grantable(t: Seq<char>, known: Seq<Seq<char>>) -> bool {
    t.len() > 0 && known.contains(t)
}

proof fn lemma_first_rejected(requested: Seq<Seq<char>>, known: Seq<Seq<char>>, j: int)
    ensures
        first_rejected(requested, known) is None <==> forall|i: int|
            0 <= i < requested.len() ==> grantable(#[trigger] requested[i], known),
        0 <= j < requested.len() && !grantable(requested[j], known) && (forall|i: int|
            0 <= i < j ==> grantable(#[trigger] requested[i], known)) ==> first_rejected(requested, known)
            == Some(
            if requested[j].len() == 0 {
                CommandErrorView::EmptyTicker
            } else {
                CommandErrorView::UnknownTicker(requested[j])
            },
        ),
    decreases requested.len(),
{
    if requested.len() > 0 {
        let rest = requested.drop_first();
        lemma_first_rejected(rest, known, j - 1);
        if grantable(requested[0], known) {
            assert forall|i: int| 0 <= i < rest.len() && grantable(#[trigger] rest[i], known) implies grantable(
                requested[i + 1],
                known,
            ) by {}
            if forall|i: int| 0 <= i < rest.len() ==> grantable(#[trigger] rest[i], known) {
                assert forall|i: int| 0 <= i < requested.len() implies grantable(#[trigger] requested[i], known) by {
                    if i > 0 {
                        assert(requested[i] == rest[i - 1]);
                    }
                }
            }
            if forall|i: int| 0 <= i < requested.len() ==> grantable(#[trigger] requested[i], known) {
                assert forall|i: int| 0 <= i < rest.len() implies grantable(#[trigger] rest[i], known) by {
                    assert(rest[i] == requested[i + 1]);
                }
            }
            if 0 <= j < requested.len() && !grantable(requested[j], known) && (forall|i: int|
                0 <= i < j ==> grantable(#[trigger] requested[i], known)) {
                assert(j > 0);
                assert(rest[j - 1] == requested[j]);
                assert forall|i: int| 0 <= i < j - 1 implies grantable(#[trigger] rest[i], known) by {
                    assert(rest[i] == requested[i + 1]);
                }
            }
        } else {
            assert(!grantable(requested[0], known));
            if 0 <= j < requested.len() && !grantable(requested[j], known) && (forall|i: int|
                0 <= i < j ==> grantable(#[trigger] requested[i], known)) {
                assert(j == 0);
            }
        }
    }
}

/// A stream is granted only for tickers that the server knows. When it is granted,
/// its tickers are exactly the comma-separated pieces of the requested list, each
/// non-empty and in the server's list. When the target is good and every piece is
/// non-empty and known, it is granted; otherwise the first piece that is not is the
/// one refused.
pub proof fn law_stream_grants_only_known_tickers(
    parts: Seq<Seq<char>>,
    known: Seq<Seq<char>>,
    target: SocketAddress,
    j: int,
)
    ensures
        stream_cmd_result(parts, Ok(known)) is Ok ==> parts.len() == 2 && url_target(parts[0], true) is Ok
            && stream_cmd_result(parts, Ok(known))->Ok_0 == (
            url_target(parts[0], true)->Ok_0,
            pieces(parts[1], Separator::Char(',')).to_set(),
        ) && forall|t: Seq<char>| #[trigger]
            stream_cmd_result(parts, Ok(known))->Ok_0.1.contains(t) ==> grantable(t, known),
        parts.len() == 2 && url_target(parts[0], true) == Ok::<SocketAddress, CommandErrorView>(target) && (
        forall|i: int|
            0 <= i < pieces(parts[1], Separator::Char(',')).len() ==> grantable(
                #[trigger] pieces(parts[1], Separator::Char(','))[i],
                known,
            )) ==> stream_cmd_result(parts, Ok(known)) == Ok::<
            (SocketAddress, Set<Seq<char>>),
            CommandErrorView,
        >((target, pieces(parts[1], Separator::Char(',')).to_set())),
        parts.len() == 2 && url_target(parts[0], true) is Ok && 0 <= j < pieces(
            parts[1],
            Separator::Char(','),
        ).len() && !grantable(pieces(parts[1], Separator::Char(','))[j], known) && (forall|i: int|
            0 <= i < j ==> grantable(#[trigger] pieces(parts[1], Separator::Char(','))[i], known))
            ==> stream_cmd_result(parts, Ok(known)) == Err::<(SocketAddress, Set<Seq<char>>), CommandErrorView>(
            if pieces(parts[1], Separator::Char(','))[j].len() == 0 {
                CommandErrorView::EmptyTicker
            } else {
                CommandErrorView::UnknownTicker(pieces(parts[1], Separator::Char(','))[j])
            },
        ),
{
    if parts.len() == 2 {
        let req = pieces(parts[1], Separator::Char(','));
        lemma_first_rejected(req, known, j);
        assert(ticker_pieces(parts[1]) == req);
        if stream_cmd_result(parts, Ok(known)) is Ok {
            assert forall|t: Seq<char>| #[trigger] req.to_set().contains(t) implies grantable(t, known) by {
                let k = choose|k: int| 0 <= k < req.len() && req[k] == t;
                assert(grantable(req[k], known));
            }
        }
    }
}

/// The target that a command names is the socket address its text names: a text
/// that is itself a socket address (`ip:port`) is that address; a `udp://` URL
/// that is not names the address that its host and port name together, the text
/// `host:port`, and is refused when that text names none. No target is ever
/// anything else; where port 0 is to be refused, a target with port 0 is refused.
pub proof fn law_target_is_the_named_address(
    text: Seq<char>,
    reject_port_zero: bool,
    host: Seq<char>,
    port: u16,
    target: SocketAddress,
)
    ensures
        parsed_socket_address(text) == Some(target) && !(reject_port_zero && port_of(target) == 0)
            ==> url_target(text, reject_port_zero) == Ok::<SocketAddress, CommandErrorView>(target),
        parsed_socket_address(text) is None && parsed_url(text) == Some(("udp"@, Some(host), Some(port)))
            && !(reject_port_zero && port == 0) && parsed_socket_address(host.push(':') + decimal(port as nat))
            == Some(target) ==> url_target(text, reject_port_zero) == Ok::<SocketAddress, CommandErrorView>(
            target,
        ),
        reject_port_zero && parsed_socket_address(text) == Some(target) && port_of(target) == 0
            ==> url_target(text, reject_port_zero) == Err::<SocketAddress, CommandErrorView>(
            CommandErrorView::PortOutOfRange,
        ),
        reject_port_zero && parsed_socket_address(text) is None && parsed_url(text) == Some(
            ("udp"@, Some(host), Some(0u16)),
        ) ==> url_target(text, reject_port_zero) == Err::<SocketAddress, CommandErrorView>(
            CommandErrorView::PortOutOfRange,
        ),
        parsed_socket_address(text) is None && parsed_url(text) == Some(("udp"@, Some(host), Some(port)))
            && !(reject_port_zero && port == 0) && parsed_socket_address(host.push(':') + decimal(port as nat))
            is None ==> url_target(text, reject_port_zero) == Err::<SocketAddress, CommandErrorView>(
            CommandErrorView::InvalidAddress,
        ),
        url_target(text, reject_port_zero) == Ok::<SocketAddress, CommandErrorView>(target) ==> (
        parsed_socket_address(text) == Some(target) || exists|h: Seq<char>, p: u16|
            parsed_url(text) == Some(("udp"@, Some(h), Some(p))) && #[trigger] parsed_socket_address(
                h.push(':') + decimal(p as nat),
            ) == Some(target)),
{
    if url_target(text, reject_port_zero) == Ok::<SocketAddress, CommandErrorView>(target)
        && parsed_socket_address(text) is None {
        match parsed_url(text) {
            Some((scheme, Some(h), Some(p))) => {
                assert(parsed_socket_address(h.push(':') + decimal(p as nat)) == Some(target));
            },
            _ => {},
        }
    }
}

proof fn lemma_first_seen_order(s: Seq<Seq<char>>, seen: Seq<Seq<char>>)
    ensures
        s.remove_duplicates(seen).len() >= seen.len(),
        s.remove_duplicates(seen).take(seen.len() as int) == seen,
        forall|q: int|
            seen.len() <= q < s.remove_duplicates(seen).len() ==> !seen.contains(
                #[trigger] s.remove_duplicates(seen)[q],
            ),
        forall|p: int, q: int, k: int|
            #![trigger s[k], s.remove_duplicates(seen)[q], s.remove_duplicates(seen)[p]]
            0 <= p < q < s.remove_duplicates(seen).len() && seen.len() <= q && 0 <= k < s.len() && s[k]
                == s.remove_duplicates(seen)[q] && seen.len() <= p ==> exists|j: int|
                0 <= j < k && #[trigger] s[j] == s.remove_duplicates(seen)[p],
    decreases s.len(),
{
    let r = s.remove_duplicates(seen);
    if s.len() == 0 {
        assert(r.take(seen.len() as int) =~= seen);
    } else {
        let rest = s.skip(1);
        if seen.contains(s[0]) {
            lemma_first_seen_order(rest, seen);
            assert forall|p: int, q: int, k: int|
                #![trigger s[k], r[q], r[p]]
                0 <= p < q < r.len() && seen.len() <= q && 0 <= k < s.len() && s[k] == r[q]
                    && seen.len() <= p implies exists|j: int| 0 <= j < k && #[trigger] s[j] == r[p] by {
                assert(k != 0);
                assert(rest[k - 1] == s[k]);
                let j = choose|j: int| 0 <= j < k - 1 && rest[j] == r[p];
                assert(s[j + 1] == r[p]);
            }
        } else {
            let more = seen + seq![s[0]];
            lemma_first_seen_order(rest, more);
            assert(r == rest.remove_duplicates(more));
            assert(r.take(more.len() as int)[seen.len() as int] == s[0]);
            assert(r[seen.len() as int] == s[0]);
            assert(r.take(seen.len() as int) =~= seen) by {
                assert forall|i: int| 0 <= i < seen.len() implies #[trigger] r.take(seen.len() as int)[i]
                    == seen[i] by {
                    assert(r.take(more.len() as int)[i] == more[i]);
                }
            }
            assert forall|q: int| seen.len() <= q < r.len() implies !seen.contains(#[trigger] r[q]) by {
                if q > seen.len() {
                    assert(!more.contains(r[q]));
                    if seen.contains(r[q]) {
                        let i = choose|i: int| 0 <= i < seen.len() && seen[i] == r[q];
                        assert(more[i] == r[q]);
                    }
                }
            }
            assert forall|p: int, q: int, k: int|
                #![trigger s[k], r[q], r[p]]
                0 <= p < q < r.len() && seen.len() <= q && 0 <= k < s.len() && s[k] == r[q]
                    && seen.len() <= p implies exists|j: int| 0 <= j < k && #[trigger] s[j] == r[p] by {
                assert(q > seen.len());
                if k == 0 {
                    assert(more[seen.len() as int] == s[0]);
                    assert(more.contains(r[q]));
                }
                assert(k != 0);
                assert(rest[k - 1] == s[k]);
                if p == seen.len() {
                    assert(s[0] == r[p]);
                } else {
                    let j = choose|j: int| 0 <= j < k - 1 && rest[j] == r[p];
                    assert(s[j + 1] == r[p]);
                }
            }
        }
    }
}

/// A ticker file's list keeps the order of the file: of two tickers on the list,
/// the earlier one is named on a line before every line that names the later one.
pub proof fn law_ticker_list_keeps_file_order(lines: Seq<Seq<char>>, p: int, q: int, line: int)
    requires
        0 <= p < q < ticker_list(lines).len(),
        0 <= line < lines.len(),
        trim(lines[line]) == ticker_list(lines)[q],
    ensures
        exists|earlier: int| 0 <= earlier < line && trim(lines[earlier]) == ticker_list(lines)[p],
{
    let trimmed = lines.map_values(|l: Seq<char>| trim(l));
    let keep = |t: Seq<char>| non_empty(t);
    let named = trimmed.filter(keep);
    let list = ticker_list(lines);
    let empty = Seq::<Seq<char>>::empty();
    lemma_first_seen_order(named, empty);
    law_ticker_list_holds_every_named_ticker(lines);
    assert(list.contains(list[q]));
    assert(trimmed[line] == list[q]);
    assert(keep(trimmed[line]));
    let before = trimmed.take(line);
    let upto = trimmed.take(line + 1);
    assert(upto =~= before.push(trimmed[line]));
    before.lemma_filter_push(trimmed[line], keep);
    assert(trimmed =~= upto + trimmed.skip(line + 1));
    Seq::filter_distributes_over_add(upto, trimmed.skip(line + 1), keep);
    let m = before.filter(keep).len() as int;
    assert(named[m] == trimmed[line]);
    let j = choose|j: int| 0 <= j < m && named[j] == list[p];
    assert(before.filter(keep)[j] == list[p]);
    before.lemma_filter_contains_rev(keep, list[p]);
    let earlier = choose|i: int| 0 <= i < before.len() && before[i] == list[p];
    assert(trim(lines[earlier]) == list[p]);
}

/// A registered client times out exactly when more than `timeout` milliseconds
/// have passed from its last ping to `now`.
pub proof fn law_client_times_out_after_silence(
    registry: Map<SocketAddress, ClientInfo>,
    addr: SocketAddress,
    timeout: u64,
    now: u64,
)
    requires
        registry.dom().contains(addr),
    ensures
        timed_out(registry, addr, timeout, now) == (now - registry[addr].last_ping > timeout),
{
}

} // verus!
