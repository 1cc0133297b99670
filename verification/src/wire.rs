//! The datagram format of a round of quotes: bincode's default encoding of a
//! sequence of `(ticker, price, volume, timestamp)` records. A sequence is its
//! length as 8 little-endian bytes, then each record; a record is the UTF-8 length
//! of the ticker as 8 little-endian bytes, the UTF-8 bytes, the price's 8 bytes,
//! the volume's 4 and the timestamp's 8, all little-endian.
use vstd::prelude::*;
use vstd::bytes::{spec_u64_to_le_bytes, spec_u32_to_le_bytes, spec_u64_from_le_bytes, spec_u32_from_le_bytes};
use vstd::utf8::encode_utf8;
use crate::quotes::{StockQuote, QuoteView, quote_views};

verus! {

broadcast use vstd::seq_lib::group_seq_properties;

/// The 8 little-endian bytes of `x`.
pub open spec fn le64(x: u64) -> Seq<u8> {
    spec_u64_to_le_bytes(x)
}

/// The 4 little-endian bytes of `x`.
pub open spec fn le32(x: u32) -> Seq<u8> {
    spec_u32_to_le_bytes(x)
}

/// A text: its UTF-8 byte length, then its UTF-8 bytes.
pub open spec fn encode_text(s: Seq<char>) -> Seq<u8> {
    le64(encode_utf8(s).len() as u64) + encode_utf8(s)
}

/// One quote record.
pub open spec fn encode_quote(q: QuoteView) -> Seq<u8> {
    encode_text(q.0) + le64(q.1) + le32(q.2) + le64(q.3)
}

/// The records of `qs`, one after the other.
pub open spec fn encode_records(qs: Seq<QuoteView>) -> Seq<u8>
    decreases qs.len(),
{
    if qs.len() == 0 {
        Seq::empty()
    } else {
        encode_quote(qs[0]) + encode_records(qs.drop_first())
    }
}

/// A round of quotes: the number of records, then the records.
pub open spec fn encode_quotes(qs: Seq<QuoteView>) -> Seq<u8> {
    le64(qs.len() as u64) + encode_records(qs)
}

/// Whether every length in the encoding of `qs` fits in the 8 bytes that hold it,
/// as it does for every sequence that a machine holds.
pub open spec fn encodable(qs: Seq<QuoteView>) -> bool {
    &&& qs.len() <= u64::MAX
    &&& forall|i: int| 0 <= i < qs.len() ==> encode_utf8(#[trigger] qs[i].0).len() <= u64::MAX
}

/// A record as bincode (de)serializes it.
pub type WireRecord = (String, u64, u32, u64);

/// The views of a sequence of records.
pub open spec fn record_views(v: Seq<WireRecord>) -> Seq<QuoteView> {
    v.map_values(|r: WireRecord| (r.0@, r.1, r.2, r.3))
}

#[verifier::external_type_specification]
#[verifier::external_body]
pub struct ExBincodeErrorKind(bincode::ErrorKind);

/// Encodes records with bincode's default options.
/// Calls `bincode::serialize`; the contract claims that it succeeds (its source
/// fails only on a size limit, which the default options do not set, or on a
/// sequence of unknown length, which a `Vec` is not) and that the bytes are the
/// layout above.
#[verifier::external_body]
fn bincode_serialize(records: &Vec<WireRecord>) -> (r: Result<Vec<u8>, Box<bincode::ErrorKind>>)
    ensures
        r is Ok,
        r is Ok ==> r->Ok_0@ == encode_quotes(record_views(records@)),
{
    bincode::serialize(records)
}

/// Decodes records with bincode's default options, which accept trailing bytes.
/// Calls `bincode::deserialize`; the contract claims that it succeeds exactly when
/// the bytes begin with the layout above of some records, whose tickers are then
/// valid UTF-8 by construction, and that what it answers is such records.
#[verifier::external_body]
fn bincode_deserialize(bytes: &[u8]) -> (r: Result<Vec<WireRecord>, Box<bincode::ErrorKind>>)
    ensures
        r is Ok ==> encodable(record_views(r->Ok_0@)) && exists|rest: Seq<u8>|
            bytes@ == #[trigger] (encode_quotes(record_views(r->Ok_0@)) + rest),
        (exists|qs: Seq<QuoteView>, rest: Seq<u8>| bytes@ == #[trigger] (encode_quotes(qs) + rest))
            ==> r is Ok,
{
    bincode::deserialize(bytes)
}

/// Why a round of quotes could not be encoded or decoded.
pub enum WireError {
    /// Encoding failed.
    Encode,
    /// The bytes are not a round of quotes.
    Decode,
}

/// Encodes a round of quotes for one datagram.
pub fn serialize_quotes(quotes: Vec<StockQuote>) -> (r: Result<Vec<u8>, WireError>)
    ensures
        r matches Ok(b) && b@ == encode_quotes(quote_views(quotes@)),
{
    let mut records: Vec<WireRecord> = Vec::new();
    let mut quotes = quotes;
    let ghost all = quote_views(quotes@);
    let mut i: usize = 0;
    let n = quotes.len();
    while i < n
        invariant
            n == quotes@.len() + i,
            all.len() == n,
            quote_views(quotes@) == all.skip(i as int),
            record_views(records@) == all.take(i as int),
        decreases n - i,
    {
        let q = quotes.remove(0);
        assert(q@ == all[i as int]) by {
            assert(quote_views(quotes@.insert(0, q))[0] == q@);
            assert(all.skip(i as int)[0] == all[i as int]);
        }
        let ghost before = record_views(records@);
        records.push((q.ticker, q.price_bits, q.volume, q.timestamp));
        assert(record_views(records@) =~= before.push(all[i as int]));
        assert(all.take(i + 1) =~= all.take(i as int).push(all[i as int]));
        assert(quote_views(quotes@) =~= all.skip(i + 1));
        i = i + 1;
    }
    assert(all.take(n as int) =~= all);
    match bincode_serialize(&records) {
        Ok(b) => Ok(b),
        Err(_) => Err(WireError::Encode),
    }
}

/// Decodes the round of quotes at the start of `bytes`.
pub fn deserialize_quotes(bytes: &[u8]) -> (r: Result<Vec<StockQuote>, WireError>)
    ensures
        r matches Ok(v) ==> encodable(quote_views(v@)) && exists|rest: Seq<u8>|
            bytes@ == #[trigger] (encode_quotes(quote_views(v@)) + rest),
        (exists|qs: Seq<QuoteView>, rest: Seq<u8>| bytes@ == #[trigger] (encode_quotes(qs) + rest))
            <==> r is Ok,
{
    let records = match bincode_deserialize(bytes) {
        Ok(v) => v,
        Err(_) => {
            return Err(WireError::Decode);
        },
    };
    let ghost all = record_views(records@);
    let mut records = records;
    let mut quotes: Vec<StockQuote> = Vec::new();
    let n = records.len();
    let mut i: usize = 0;
    while i < n
        invariant
            n == records@.len() + i,
            all.len() == n,
            record_views(records@) == all.skip(i as int),
            quote_views(quotes@) == all.take(i as int),
        decreases n - i,
    {
        let r = records.remove(0);
        assert((r.0@, r.1, r.2, r.3) == all[i as int]) by {
            assert(record_views(records@.insert(0, r))[0] == (r.0@, r.1, r.2, r.3));
            assert(all.skip(i as int)[0] == all[i as int]);
        }
        let ghost before = quote_views(quotes@);
        quotes.push(StockQuote { ticker: r.0, price_bits: r.1, volume: r.2, timestamp: r.3 });
        assert(quote_views(quotes@) =~= before.push(all[i as int]));
        assert(all.take(i + 1) =~= all.take(i as int).push(all[i as int]));
        assert(record_views(records@) =~= all.skip(i + 1));
        i = i + 1;
    }
    assert(all.take(n as int) =~= all);
    let ghost rest = choose|rest: Seq<u8>| bytes@ == #[trigger] (encode_quotes(all) + rest);
    assert(bytes@ == encode_quotes(quote_views(quotes@)) + rest);
    Ok(quotes)
}

proof fn lemma_split_equal(a: Seq<u8>, r1: Seq<u8>, b: Seq<u8>, r2: Seq<u8>)
    requires
        a.len() == b.len(),
        a + r1 == b + r2,
    ensures
        a == b,
        r1 == r2,
{
    assert((a + r1).take(a.len() as int) =~= a);
    assert((b + r2).take(b.len() as int) =~= b);
    assert((a + r1).skip(a.len() as int) =~= r1);
    assert((b + r2).skip(b.len() as int) =~= r2);
}

proof fn lemma_le64_unique(x: u64, r1: Seq<u8>, y: u64, r2: Seq<u8>)
    requires
        le64(x) + r1 == le64(y) + r2,
    ensures
        x == y,
        r1 == r2,
{
    vstd::bytes::lemma_auto_spec_u64_to_from_le_bytes();
    lemma_split_equal(le64(x), r1, le64(y), r2);
    assert(spec_u64_from_le_bytes(spec_u64_to_le_bytes(x)) == x);
    assert(spec_u64_from_le_bytes(spec_u64_to_le_bytes(y)) == y);
}

proof fn lemma_le32_unique(x: u32, r1: Seq<u8>, y: u32, r2: Seq<u8>)
    requires
        le32(x) + r1 == le32(y) + r2,
    ensures
        x == y,
        r1 == r2,
{
    vstd::bytes::lemma_auto_spec_u32_to_from_le_bytes();
    lemma_split_equal(le32(x), r1, le32(y), r2);
    assert(spec_u32_from_le_bytes(spec_u32_to_le_bytes(x)) == x);
    assert(spec_u32_from_le_bytes(spec_u32_to_le_bytes(y)) == y);
}

proof fn lemma_quote_unique(q1: QuoteView, r1: Seq<u8>, q2: QuoteView, r2: Seq<u8>)
    requires
        encode_utf8(q1.0).len() <= u64::MAX,
        encode_utf8(q2.0).len() <= u64::MAX,
        encode_quote(q1) + r1 == encode_quote(q2) + r2,
    ensures
        q1 == q2,
        r1 == r2,
{
    let u1 = encode_utf8(q1.0);
    let u2 = encode_utf8(q2.0);
    let t1 = le64(q1.3) + r1;
    let t2 = le64(q2.3) + r2;
    let v1 = le32(q1.2) + t1;
    let v2 = le32(q2.2) + t2;
    let p1 = le64(q1.1) + v1;
    let p2 = le64(q2.1) + v2;
    assert(encode_quote(q1) + r1 =~= le64(u1.len() as u64) + (u1 + p1));
    assert(encode_quote(q2) + r2 =~= le64(u2.len() as u64) + (u2 + p2));
    lemma_le64_unique(u1.len() as u64, u1 + p1, u2.len() as u64, u2 + p2);
    lemma_split_equal(u1, p1, u2, p2);
    vstd::utf8::encode_utf8_decode_utf8(q1.0);
    vstd::utf8::encode_utf8_decode_utf8(q2.0);
    lemma_le64_unique(q1.1, v1, q2.1, v2);
    lemma_le32_unique(q1.2, t1, q2.2, t2);
    lemma_le64_unique(q1.3, r1, q2.3, r2);
}

proof fn lemma_records_unique(qs: Seq<QuoteView>, r1: Seq<u8>, ws: Seq<QuoteView>, r2: Seq<u8>)
    requires
        encodable(qs),
        encodable(ws),
        qs.len() == ws.len(),
        encode_records(qs) + r1 == encode_records(ws) + r2,
    ensures
        qs == ws,
        r1 == r2,
    decreases qs.len(),
{
    if qs.len() == 0 {
        assert(encode_records(qs) + r1 =~= r1);
        assert(encode_records(ws) + r2 =~= r2);
        assert(qs =~= ws);
    } else {
        let a1 = encode_records(qs.drop_first()) + r1;
        let a2 = encode_records(ws.drop_first()) + r2;
        assert(encode_records(qs) + r1 =~= encode_quote(qs[0]) + a1);
        assert(encode_records(ws) + r2 =~= encode_quote(ws[0]) + a2);
        assert(encode_utf8(qs[0].0).len() <= u64::MAX);
        assert(encode_utf8(ws[0].0).len() <= u64::MAX);
        lemma_quote_unique(qs[0], a1, ws[0], a2);
        assert forall|i: int| 0 <= i < qs.drop_first().len() implies encode_utf8(
            #[trigger] qs.drop_first()[i].0,
        ).len() <= u64::MAX by {
            assert(qs.drop_first()[i] == qs[i + 1]);
        }
        assert forall|i: int| 0 <= i < ws.drop_first().len() implies encode_utf8(
            #[trigger] ws.drop_first()[i].0,
        ).len() <= u64::MAX by {
            assert(ws.drop_first()[i] == ws[i + 1]);
        }
        lemma_records_unique(qs.drop_first(), r1, ws.drop_first(), r2);
        assert(qs =~= ws);
    }
}

/// A round of quotes is decoded as exactly what was encoded: when the bytes of two
/// rounds, each followed by anything, are the same, the rounds are the same and so
/// is what follows them.
pub proof fn law_encoding_is_unambiguous(
    qs: Seq<QuoteView>,
    r1: Seq<u8>,
    ws: Seq<QuoteView>,
    r2: Seq<u8>,
)
    requires
        encodable(qs),
        encodable(ws),
        encode_quotes(qs) + r1 == encode_quotes(ws) + r2,
    ensures
        qs == ws,
        r1 == r2,
{
    assert(encode_quotes(qs) + r1 =~= le64(qs.len() as u64) + (encode_records(qs) + r1));
    assert(encode_quotes(ws) + r2 =~= le64(ws.len() as u64) + (encode_records(ws) + r2));
    lemma_le64_unique(qs.len() as u64, encode_records(qs) + r1, ws.len() as u64, encode_records(ws) + r2);
    lemma_records_unique(qs, r1, ws, r2);
}

} // verus!
