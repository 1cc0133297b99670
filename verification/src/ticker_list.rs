//! Ticker lists as they are kept in text files: one ticker per line, surrounding
//! whitespace ignored, blank lines skipped, each ticker once.
use vstd::prelude::*;
use crate::text::{trim, non_empty, views, trim_str, join, join_strings};

verus! {

broadcast use vstd::seq_lib::group_seq_properties;

/// The tickers that the lines of a file name, in file order, repetitions included.
pub open spec fn named_tickers(lines: Seq<Seq<char>>) -> Seq<Seq<char>> {
    lines.map_values(|l: Seq<char>| trim(l)).filter(|t: Seq<char>| non_empty(t))
}

/// The ticker list that the lines of a file hold: each named ticker once, in the
/// order of its first line.
pub open spec fn ticker_list(lines: Seq<Seq<char>>) -> Seq<Seq<char>> {
    named_tickers(lines).remove_duplicates(Seq::empty())
}

/// The non-blank lines, trimmed.
fn trimmed_tickers(lines: &Vec<String>) -> (r: Vec<String>)
    ensures
        views(r@) == named_tickers(views(lines@)),
{
    let ghost trimmed = views(lines@).map_values(|l: Seq<char>| trim(l));
    let ghost keep = |t: Seq<char>| non_empty(t);
    let mut out: Vec<String> = Vec::new();
    let mut i: usize = 0;
    while i < lines.len()
        invariant
            i <= lines@.len(),
            trimmed == views(lines@).map_values(|l: Seq<char>| trim(l)),
            keep == (|t: Seq<char>| non_empty(t)),
            views(out@) == trimmed.take(i as int).filter(keep),
        decreases lines.len() - i,
    {
        proof {
            assert(trimmed.take(i + 1) =~= trimmed.take(i as int).push(trimmed[i as int]));
            trimmed.take(i as int).lemma_filter_push(trimmed[i as int], keep);
        }
        let t = trim_str(lines[i].as_str());
        assert(t@ == trimmed[i as int]) by {
            assert(views(lines@)[i as int] == lines@[i as int]@);
        }
        let ghost before = views(out@);
        if !t.as_str().is_empty() {
            out.push(t);
            assert(views(out@) =~= before.push(trimmed[i as int]));
        }
        i = i + 1;
    }
    assert(trimmed.take(lines@.len() as int) =~= trimmed);
    out
}

/// The ticker list held by the lines of a ticker file.
pub fn tickers_from_lines(lines: &Vec<String>) -> (r: Vec<String>)
    ensures
        views(r@) == ticker_list(views(lines@)),
        views(r@).no_duplicates(),
{
    let named = trimmed_tickers(lines);
    let ghost all = views(named@);
    let mut out: Vec<String> = Vec::new();
    let mut i: usize = 0;
    assert(all.skip(0) =~= all);
    while i < named.len()
        invariant
            i <= named@.len(),
            all == views(named@),
            views(out@).no_duplicates(),
            all.remove_duplicates(Seq::empty()) == all.skip(i as int).remove_duplicates(views(out@)),
        decreases named.len() - i,
    {
        let t = named[i].clone();
        let ghost rest = all.skip(i as int);
        assert(rest[0] == t@);
        assert(rest.skip(1) =~= all.skip(i + 1));
        let ghost before = views(out@);
        if !crate::command::contains_string(&out, &t) {
            out.push(t);
            assert(views(out@) =~= before + seq![t@]);
        }
        i = i + 1;
    }
    assert(all.skip(named@.len() as int) =~= Seq::<Seq<char>>::empty());
    out
}

/// The tickers that the quote generator uses when there is no ticker file.
pub open spec fn default_tickers() -> Seq<Seq<char>> {
    seq!["AAPL"@, "MSFT"@, "TSLA"@]
}

/// The tickers that the quote generator uses when there is no ticker file.
pub fn default_ticker_list() -> (r: Vec<String>)
    ensures
        views(r@) == default_tickers(),
{
    let mut r: Vec<String> = Vec::new();
    r.push(String::from_str("AAPL"));
    r.push(String::from_str("MSFT"));
    r.push(String::from_str("TSLA"));
    assert(views(r@) =~= default_tickers());
    r
}

/// The client's ticker list for its `STREAM` command: the tickers of the lines
/// of its ticker file, joined with commas.
pub fn read_tickers_file(lines: &Vec<String>) -> (r: String)
    ensures
        r@ == join(ticker_list(views(lines@)), ','),
{
    let tickers = tickers_from_lines(lines);
    join_strings(&tickers, ',')
}

} // verus!
