//! Stock quotes: the record that the server generates and streams, and the
//! per-client filtering of a round of quotes.
use vstd::prelude::*;
use crate::text::views;

verus! {

broadcast use vstd::seq_lib::group_seq_properties;

/// One quote of one ticker. The price is held as the bits of its IEEE 754
/// double (`f64::to_bits`); the timestamp is in milliseconds since the Unix epoch.
pub struct StockQuote {
    pub ticker: String,
    pub price_bits: u64,
    pub volume: u32,
    pub timestamp: u64,
}

/// A quote as plain values: ticker, price bits, volume, timestamp.
pub type QuoteView = (Seq<char>, u64, u32, u64);

impl View for StockQuote {
    type V = QuoteView;

    open spec fn view(&self) -> QuoteView {
        (self.ticker@, self.price_bits, self.volume, self.timestamp)
    }
}

/// One round of generated quotes, one per ticker.
pub type TickerPrices = Vec<StockQuote>;

/// The views of a sequence of quotes.
pub open spec fn quote_views(v: Seq<StockQuote>) -> Seq<QuoteView> {
    v.map_values(|q: StockQuote| q@)
}

impl StockQuote {
    /// A quote of `ticker` at the price with bits `price_bits`, with `volume`,
    /// stamped `timestamp`.
    pub fn new(ticker: String, price_bits: u64, volume: u32, timestamp: u64) -> (q: Self)
        ensures
            q@ == (ticker@, price_bits, volume, timestamp),
    {
        StockQuote { ticker, price_bits, volume, timestamp }
    }

    /// A copy of this quote.
    pub fn duplicate(&self) -> (q: Self)
        ensures
            q@ == self@,
    {
        StockQuote {
            ticker: self.ticker.clone(),
            price_bits: self.price_bits,
            volume: self.volume,
            timestamp: self.timestamp,
        }
    }
}

/// A copy of a round of quotes.
pub fn duplicate_quotes(v: &Vec<StockQuote>) -> (r: Vec<StockQuote>)
    ensures
        quote_views(r@) == quote_views(v@),
{
    let mut r: Vec<StockQuote> = Vec::new();
    let mut i: usize = 0;
    while i < v.len()
        invariant
            i <= v@.len(),
            quote_views(r@) == quote_views(v@).take(i as int),
        decreases v.len() - i,
    {
        let q = v[i].duplicate();
        let ghost before = quote_views(r@);
        assert(quote_views(v@)[i as int] == v@[i as int]@);
        r.push(q);
        assert(quote_views(r@) =~= before.push(q@));
        assert(quote_views(r@) =~= quote_views(v@).take(i + 1));
        i = i + 1;
    }
    assert(quote_views(v@).take(v@.len() as int) =~= quote_views(v@));
    r
}

/// Whether the quote's ticker is one of `tickers`.
pub open spec fn wanted(tickers: Seq<Seq<char>>, q: QuoteView) -> bool {
    tickers.contains(q.0)
}

/// Keeps the quotes whose ticker the client asked for, in their order.
pub fn filter_prices(prices: TickerPrices, tickers_set: &Vec<String>) -> (r: Vec<StockQuote>)
    ensures
        quote_views(r@) == quote_views(prices@).filter(|q: QuoteView| wanted(views(tickers_set@), q)),
{
    let ghost all = quote_views(prices@);
    let ghost keep = |q: QuoteView| wanted(views(tickers_set@), q);
    let mut r: Vec<StockQuote> = Vec::new();
    let mut i: usize = 0;
    while i < prices.len()
        invariant
            i <= prices@.len(),
            all == quote_views(prices@),
            keep == (|q: QuoteView| wanted(views(tickers_set@), q)),
            quote_views(r@) == all.take(i as int).filter(keep),
        decreases prices.len() - i,
    {
        proof {
            assert(all.take(i + 1) =~= all.take(i as int).push(all[i as int]));
            all.take(i as int).lemma_filter_push(all[i as int], keep);
        }
        let q = &prices[i];
        assert(all[i as int] == q@);
        let ghost before = quote_views(r@);
        if crate::command::contains_string(tickers_set, &q.ticker) {
            let d = q.duplicate();
            r.push(d);
            assert(quote_views(r@) =~= before.push(all[i as int]));
        }
        i = i + 1;
    }
    assert(all.take(prices@.len() as int) =~= all);
    r
}

/// Whether ticker `a` sorts before or with ticker `b`: character codes compared
/// in turn, a prefix first. This is the order of `String`'s `Ord`, which compares
/// UTF-8 bytes, as UTF-8 keeps the order of character codes.
pub open spec fn ticker_le(a: Seq<char>, b: Seq<char>) -> bool
    decreases a.len(),
{
    if a.len() == 0 {
        true
    } else if b.len() == 0 {
        false
    } else if (a[0] as u32) < (b[0] as u32) {
        true
    } else if a[0] == b[0] {
        ticker_le(a.drop_first(), b.drop_first())
    } else {
        false
    }
}

/// Whether the quotes are in ticker order.
pub open spec fn sorted_by_ticker(qs: Seq<QuoteView>) -> bool {
    forall|i: int, j: int| 0 <= i < j < qs.len() ==> ticker_le(#[trigger] qs[i].0, #[trigger] qs[j].0)
}

/// Of two tickers, one sorts before or with the other.
pub proof fn lemma_ticker_le_total(a: Seq<char>, b: Seq<char>)
    ensures
        ticker_le(a, b) || ticker_le(b, a),
    decreases a.len(),
{
    if a.len() > 0 && b.len() > 0 {
        if a[0] == b[0] {
            lemma_ticker_le_total(a.drop_first(), b.drop_first());
        } else {
            vstd::utf8::char_u32_cast(a[0], a[0] as u32);
            vstd::utf8::char_u32_cast(b[0], b[0] as u32);
        }
    }
}

/// The ticker order is transitive.
pub proof fn lemma_ticker_le_transitive(a: Seq<char>, b: Seq<char>, c: Seq<char>)
    requires
        ticker_le(a, b),
        ticker_le(b, c),
    ensures
        ticker_le(a, c),
    decreases a.len(),
{
    if a.len() > 0 && b.len() > 0 && c.len() > 0 && a[0] == b[0] && b[0] == c[0] {
        lemma_ticker_le_transitive(a.drop_first(), b.drop_first(), c.drop_first());
    }
}

/// Whether ticker `a` sorts before or with ticker `b`.
pub fn ticker_at_most(a: &String, b: &String) -> (r: bool)
    ensures
        r == ticker_le(a@, b@),
{
    let x = crate::text::chars_of(a.as_str());
    let y = crate::text::chars_of(b.as_str());
    let mut k: usize = 0;
    assert(x@.skip(0) =~= x@ && y@.skip(0) =~= y@);
    while k < x.len() && k < y.len()
        invariant
            k <= x@.len(),
            k <= y@.len(),
            x@ == a@,
            y@ == b@,
            ticker_le(a@, b@) == ticker_le(x@.skip(k as int), y@.skip(k as int)),
        decreases x.len() - k,
    {
        assert(x@.skip(k as int)[0] == x@[k as int]);
        assert(y@.skip(k as int)[0] == y@[k as int]);
        if (x[k] as u32) < (y[k] as u32) {
            return true;
        }
        if x[k] != y[k] {
            return false;
        }
        assert(x@.skip(k as int).drop_first() =~= x@.skip(k + 1));
        assert(y@.skip(k as int).drop_first() =~= y@.skip(k + 1));
        k = k + 1;
    }
    k == x.len()
}

/// Whether a quote is of ticker `t`.
pub open spec fn has_ticker(t: Seq<char>) -> spec_fn(QuoteView) -> bool {
    |q: QuoteView| q.0 == t
}

/// Every ticker sorts with itself.
pub proof fn lemma_ticker_le_reflexive(a: Seq<char>)
    ensures
        ticker_le(a, a),
    decreases a.len(),
{
    if a.len() > 0 {
        lemma_ticker_le_reflexive(a.drop_first());
    }
}

proof fn lemma_insert_by_ticker(o: Seq<QuoteView>, k: int, q: QuoteView, t: Seq<char>)
    requires
        0 <= k <= o.len(),
        forall|m: int| k <= m < o.len() ==> (#[trigger] o[m]).0 != q.0,
    ensures
        o.insert(k, q).filter(has_ticker(t)) == (if q.0 == t {
            o.filter(has_ticker(t)).push(q)
        } else {
            o.filter(has_ticker(t))
        }),
{
    let p = has_ticker(t);
    let a = o.take(k);
    let b = o.skip(k);
    assert(o.insert(k, q) =~= a + seq![q] + b);
    assert(o =~= a + b);
    Seq::filter_distributes_over_add(a + seq![q], b, p);
    Seq::filter_distributes_over_add(a, seq![q], p);
    Seq::filter_distributes_over_add(a, b, p);
    assert(seq![q] =~= Seq::<QuoteView>::empty().push(q));
    Seq::<QuoteView>::empty().lemma_filter_push(q, p);
    assert(Seq::<QuoteView>::empty().filter(p) =~= Seq::<QuoteView>::empty()) by {
        reveal(Seq::filter);
    }
    if q.0 == t {
        assert forall|m: int| 0 <= m < b.len() implies !p(#[trigger] b[m]) by {
            assert(b[m] == o[k + m]);
        }
        assert(b.all(|x: QuoteView| !p(x)));
        b.lemma_all_neg_filter_empty(p);
        assert(b.filter(p) =~= Seq::<QuoteView>::empty());
        assert(a.filter(p) + seq![q] + b.filter(p) =~= (a.filter(p) + b.filter(p)).push(q));
    } else {
        assert(a.filter(p) + Seq::<QuoteView>::empty() + b.filter(p) =~= a.filter(p) + b.filter(p));
    }
}

/// The quotes in ticker order; quotes with the same ticker keep their order.
pub fn sort_by_ticker(quotes: Vec<StockQuote>) -> (r: Vec<StockQuote>)
    ensures
        sorted_by_ticker(quote_views(r@)),
        quote_views(r@).to_multiset() == quote_views(quotes@).to_multiset(),
        forall|t: Seq<char>|
            #[trigger] quote_views(r@).filter(has_ticker(t)) == quote_views(quotes@).filter(has_ticker(t)),
{
    let mut out: Vec<StockQuote> = Vec::new();
    let mut rest = quotes;
    let ghost all = quote_views(rest@);
    let n = rest.len();
    let mut i: usize = 0;
    while i < n
        invariant
            n == rest@.len() + i,
            all.len() == n,
            quote_views(rest@) == all.skip(i as int),
            sorted_by_ticker(quote_views(out@)),
            quote_views(out@).to_multiset() == all.take(i as int).to_multiset(),
            forall|t: Seq<char>|
                #[trigger] quote_views(out@).filter(has_ticker(t)) == all.take(i as int).filter(
                    has_ticker(t),
                ),
        decreases n - i,
    {
        let q = rest.remove(0);
        assert(q@ == all[i as int]) by {
            assert(quote_views(rest@.insert(0, q))[0] == q@);
            assert(all.skip(i as int)[0] == all[i as int]);
        }
        assert(quote_views(rest@) =~= all.skip(i + 1));
        let ghost o = quote_views(out@);
        let mut k: usize = 0;
        while k < out.len() && ticker_at_most(&out[k].ticker, &q.ticker)
            invariant
                k <= out@.len(),
                o == quote_views(out@),
                forall|m: int| 0 <= m < k ==> ticker_le(#[trigger] o[m].0, q@.0),
            decreases out.len() - k,
        {
            assert(o[k as int] == out@[k as int]@);
            k = k + 1;
        }
        proof {
            if k < out.len() {
                assert(o[k as int] == out@[k as int]@);
                lemma_ticker_le_total(o[k as int].0, q@.0);
            }
        }
        out.insert(k, q);
        let ghost o2 = quote_views(out@);
        assert(o2 =~= o.insert(k as int, q@));
        assert forall|a: int, b: int| 0 <= a < b < o2.len() implies ticker_le(
            #[trigger] o2[a].0,
            #[trigger] o2[b].0,
        ) by {
            if b == k {
                assert(o2[a] == o[a]);
            } else if a == k {
                assert(o2[b] == o[b - 1]);
                if b - 1 > k {
                    lemma_ticker_le_transitive(q@.0, o[k as int].0, o[b - 1].0);
                }
            } else {
                let aa = if a < k { a } else { a - 1 };
                let bb = if b < k { b } else { b - 1 };
                assert(o2[a] == o[aa]);
                assert(o2[b] == o[bb]);
            }
        }
        proof {
            assert forall|m: int| k <= m < o.len() implies (#[trigger] o[m]).0 != q@.0 by {
                if o[m].0 == q@.0 {
                    lemma_ticker_le_reflexive(q@.0);
                    if m > k {
                        assert(ticker_le(o[k as int].0, o[m].0));
                    }
                }
            }
            assert(all.take(i + 1) =~= all.take(i as int).push(q@));
            assert forall|t: Seq<char>|
                #[trigger] o2.filter(has_ticker(t)) == all.take(i + 1).filter(has_ticker(t)) by {
                lemma_insert_by_ticker(o, k as int, q@, t);
                all.take(i as int).lemma_filter_push(q@, has_ticker(t));
                assert(o.filter(has_ticker(t)) == all.take(i as int).filter(has_ticker(t)));
            }
            o2.to_multiset_ensures();
            assert(o2.remove(k as int) =~= o);
            assert(o2.to_multiset().remove(q@) =~= o.to_multiset());
            assert(o2.to_multiset().count(q@) > 0);
            assert(o2.to_multiset() =~= o.to_multiset().insert(q@));
            all.take(i as int).to_multiset_ensures();
            assert(all.take(i + 1) =~= all.take(i as int).push(q@));
        }
        i = i + 1;
    }
    assert(all.take(n as int) =~= all);
    out
}

} // verus!
