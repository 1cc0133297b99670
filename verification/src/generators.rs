//! The integer side of quote generation: the traded volume of a ticker in a round,
//! drawn from the thread's random number generator.
use vstd::prelude::*;
use rand::Rng;
use crate::quotes::{StockQuote, TickerPrices};

verus! {

#[verifier::external_type_specification]
#[verifier::external_body]
pub struct ExThreadRng(rand::rngs::ThreadRng);

/// A number drawn uniformly from `0..bound`.
/// Calls `Rng::gen_range` on `0..bound`, which panics on an empty range; the
/// contract claims what its documentation promises of the result: it lies in the range.
#[verifier::external_body]
fn draw_below(rng: &mut rand::rngs::ThreadRng, bound: u32) -> (r: u32)
    requires
        bound > 0,
    ensures
        r < bound,
{
    rng.gen_range(0..bound)
}

/// Whether a ticker trades in large volumes.
pub open spec fn is_major(ticker: Seq<char>) -> bool {
    ticker == "AAPL"@ || ticker == "MSFT"@ || ticker == "TSLA"@
}

/// The smallest volume of a round for the ticker.
pub open spec fn volume_base(ticker: Seq<char>) -> u32 {
    if is_major(ticker) {
        1000
    } else {
        100
    }
}

/// How many volumes a round can have for the ticker, from the smallest up.
pub open spec fn volume_spread(ticker: Seq<char>) -> u32 {
    if is_major(ticker) {
        5000
    } else {
        1000
    }
}

/// Whether the ticker trades in large volumes.
pub fn ticker_is_major(ticker: &str) -> (b: bool)
    ensures
        b == is_major(ticker@),
{
    let t = String::from_str(ticker);
    let aapl = String::from_str("AAPL");
    let msft = String::from_str("MSFT");
    let tsla = String::from_str("TSLA");
    t == aapl || t == msft || t == tsla
}

/// The volume of a round for the ticker, given a draw from `0..volume_spread`.
pub fn volume_from_draw(ticker: &str, draw: u32) -> (v: u32)
    requires
        draw < volume_spread(ticker@),
    ensures
        v == volume_base(ticker@) + draw,
{
    if ticker_is_major(ticker) {
        1000 + draw
    } else {
        100 + draw
    }
}

/// A random volume of a round for the ticker.
pub fn generate_volume(rng: &mut rand::rngs::ThreadRng, ticker: &str) -> (v: u32)
    ensures
        volume_base(ticker@) <= v < volume_base(ticker@) + volume_spread(ticker@),
{
    let spread: u32 = if ticker_is_major(ticker) {
        5000
    } else {
        1000
    };
    let draw = draw_below(rng, spread);
    volume_from_draw(ticker, draw)
}

/// One round of quotes: for each ticker, in order, a quote at the price with the
/// given bits, with a random volume for that ticker, stamped `now`.
pub fn assemble_round(rng: &mut rand::rngs::ThreadRng, tickers: &Vec<String>, price_bits: &Vec<u64>, now: u64) -> (r: TickerPrices)
    requires
        tickers@.len() == price_bits@.len(),
    ensures
        r@.len() == tickers@.len(),
        forall|i: int|
            0 <= i < r@.len() ==> {
                &&& (#[trigger] r@[i]).ticker@ == tickers@[i]@
                &&& r@[i].price_bits == price_bits@[i]
                &&& r@[i].timestamp == now
                &&& volume_base(tickers@[i]@) <= r@[i].volume < volume_base(tickers@[i]@)
                    + volume_spread(tickers@[i]@)
            },
{
    let mut r: TickerPrices = Vec::new();
    let mut i: usize = 0;
    while i < tickers.len()
        invariant
            i <= tickers@.len(),
            tickers@.len() == price_bits@.len(),
            r@.len() == i,
            forall|k: int|
                0 <= k < i ==> {
                    &&& (#[trigger] r@[k]).ticker@ == tickers@[k]@
                    &&& r@[k].price_bits == price_bits@[k]
                    &&& r@[k].timestamp == now
                    &&& volume_base(tickers@[k]@) <= r@[k].volume < volume_base(tickers@[k]@)
                        + volume_spread(tickers@[k]@)
                },
        decreases tickers.len() - i,
    {
        let volume = generate_volume(rng, tickers[i].as_str());
        let q = StockQuote::new(tickers[i].clone(), price_bits[i], volume, now);
        r.push(q);
        i = i + 1;
    }
    r
}

} // verus!
