use quote_stream::quotes::StockQuote;
use quote_stream::wire::{deserialize_quotes, serialize_quotes};

fn q(t: &str, p: f64, v: u32, ts: u64) -> StockQuote {
    StockQuote::new(t.to_string(), p.to_bits(), v, ts)
}

#[test]
fn layout_is_bincode_default() {
    let bytes = serialize_quotes(vec![q("AB", 1.0, 7, 9)]).ok().unwrap();
    let mut expected = vec![];
    expected.extend_from_slice(&1u64.to_le_bytes());
    expected.extend_from_slice(&2u64.to_le_bytes());
    expected.extend_from_slice(b"AB");
    expected.extend_from_slice(&1.0f64.to_le_bytes());
    expected.extend_from_slice(&7u32.to_le_bytes());
    expected.extend_from_slice(&9u64.to_le_bytes());
    assert_eq!(bytes, expected);
    assert_eq!(serialize_quotes(vec![]).ok().unwrap(), 0u64.to_le_bytes().to_vec());
}

#[test]
fn decode_gives_back_what_was_encoded() {
    let quotes = vec![q("AAPL", 123.456, 4321, 1_700_000_000_000), q("Ωmega", -0.5, 0, 1)];
    let bytes = serialize_quotes(vec![
        q("AAPL", 123.456, 4321, 1_700_000_000_000),
        q("Ωmega", -0.5, 0, 1),
    ])
    .ok()
    .unwrap();
    let back = deserialize_quotes(&bytes).ok().unwrap();
    assert_eq!(back.len(), quotes.len());
    for (a, b) in back.iter().zip(quotes.iter()) {
        assert_eq!(a.ticker, b.ticker);
        assert_eq!(a.price_bits, b.price_bits);
        assert_eq!(a.volume, b.volume);
        assert_eq!(a.timestamp, b.timestamp);
    }
    let mut longer = bytes.clone();
    longer.extend_from_slice(b"trailing");
    assert_eq!(deserialize_quotes(&longer).ok().unwrap().len(), 2);
}

#[test]
fn garbage_is_refused() {
    assert!(deserialize_quotes(b"PING").is_err());
    let bytes = serialize_quotes(vec![q("AAPL", 1.0, 1, 1)]).ok().unwrap();
    assert!(deserialize_quotes(&bytes[..bytes.len() - 1]).is_err());
    let mut bad_utf8 = vec![];
    bad_utf8.extend_from_slice(&1u64.to_le_bytes());
    bad_utf8.extend_from_slice(&1u64.to_le_bytes());
    bad_utf8.push(0xff);
    bad_utf8.extend_from_slice(&[0u8; 20]);
    assert!(deserialize_quotes(&bad_utf8).is_err());
}
