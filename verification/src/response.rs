//! The client's reading of the server's answer to its `STREAM` command.
use vstd::prelude::*;
use crate::text::{trim, chars_of, trim_bounds, string_of};

verus! {

/// The server's answer: `OK`, or anything else, which is an error.
pub enum ServerTcpResponse {
    OK,
    ErrorResponse(String),
}

/// The bare answer that means the stream was accepted.
pub open spec fn server_stream_response() -> Seq<char> {
    "OK"@
}

/// Whether `c` is an ASCII decimal digit.
pub open spec fn is_digit(c: char) -> bool {
    48 <= (c as u32) <= 57
}

/// The number that a run of decimal digits writes.
pub open spec fn digits_value(d: Seq<char>) -> nat
    decreases d.len(),
{
    if d.len() == 0 {
        0
    } else {
        digits_value(d.drop_last()) * 10 + ((d.last() as u32) - 48) as nat
    }
}

/// Whether `d` writes a UDP port: one to five decimal digits of value at most 65535.
pub open spec fn is_port_text(d: Seq<char>) -> bool {
    &&& 1 <= d.len() <= 5
    &&& forall|i: int| 0 <= i < d.len() ==> is_digit(#[trigger] d[i])
    &&& digits_value(d) <= 65535
}

/// Whether an answer line, trimmed, accepts the stream: `OK`, or `OK <udp_ping_port>`.
pub open spec fn accepts_stream(t: Seq<char>) -> bool {
    ||| t == server_stream_response()
    ||| t.len() > 3 && t.take(3) == "OK "@ && is_port_text(t.skip(3))
}

/// The largest number that `n` decimal digits write.
pub open spec fn max_of_digits(n: nat) -> nat
    decreases n,
{
    if n == 0 {
        0
    } else {
        max_of_digits((n - 1) as nat) * 10 + 9
    }
}

/// Whether `cs[3..]` writes a UDP port.
fn port_text_at(cs: &Vec<char>) -> (b: bool)
    requires
        cs@.len() >= 3,
    ensures
        b == is_port_text(cs@.skip(3)),
{
    let n = cs.len();
    if n < 4 || n > 8 {
        return false;
    }
    let mut v: u32 = 0;
    let mut i: usize = 3;
    assert(cs@.subrange(3, 3) =~= Seq::<char>::empty());
    while i < n
        invariant
            3 <= i <= n <= 8,
            n == cs@.len(),
            v == digits_value(cs@.subrange(3, i as int)),
            v <= max_of_digits((i - 3) as nat),
            forall|k: int| 3 <= k < i ==> is_digit(#[trigger] cs@[k]),
        decreases n - i,
    {
        let c = cs[i];
        let u = c as u32;
        if u < 48 || u > 57 {
            assert(!is_digit(cs@.skip(3)[i - 3]));
            return false;
        }
        assert(cs@.subrange(3, i + 1).drop_last() =~= cs@.subrange(3, i as int));
        assert(max_of_digits((i + 1 - 3) as nat) == max_of_digits((i - 3) as nat) * 10 + 9);
        assert(max_of_digits(4) == 9999) by {
            reveal_with_fuel(max_of_digits, 5);
        }
        v = v * 10 + (u - 48);
        i = i + 1;
    }
    assert(cs@.subrange(3, n as int) =~= cs@.skip(3));
    assert forall|k: int| 0 <= k < cs@.skip(3).len() implies is_digit(#[trigger] cs@.skip(3)[k]) by {
        assert(cs@.skip(3)[k] == cs@[k + 3]);
    }
    v <= 65535
}

/// Reads the server's answer line: `OK`, or `OK` and the port on which the server
/// expects pings, surrounding whitespace aside, accepts; any other line is an
/// error carrying the line, trimmed.
pub fn is_response_ok(response: String) -> (r: ServerTcpResponse)
    ensures
        accepts_stream(trim(response@)) ==> r is OK,
        !accepts_stream(trim(response@)) ==> (r matches ServerTcpResponse::ErrorResponse(e)
            && e@ == trim(response@)),
{
    let cs = chars_of(response.as_str());
    let (a, b) = trim_bounds(&cs);
    let input = string_of(&cs, a, b);
    let ok = String::from_str("OK");
    if input == ok {
        return ServerTcpResponse::OK;
    }
    let t = chars_of(input.as_str());
    proof {
        reveal_strlit("OK ");
    }
    if t.len() > 3 && t[0] == 'O' && t[1] == 'K' && t[2] == ' ' {
        assert(t@.take(3) =~= "OK "@);
        if port_text_at(&t) {
            return ServerTcpResponse::OK;
        }
    } else {
        assert(t@.len() > 3 ==> t@.take(3) != "OK "@) by {
            if t@.len() > 3 && t@.take(3) == "OK "@ {
                assert(t@.take(3)[0] == 'O' && t@.take(3)[1] == 'K' && t@.take(3)[2] == ' ');
            }
        }
    }
    ServerTcpResponse::ErrorResponse(input)
}

} // verus!
