//! Character-level text handling: whitespace, trimming, splitting, joining
//! and decimal rendering, each with a mathematical statement of its result.
use vstd::prelude::*;

verus! {

broadcast use vstd::seq_lib::group_seq_properties;

/// Unicode `White_Space`, the property that `char::is_whitespace` tests.
pub open spec fn is_space(c: char) -> bool {
    let u = c as u32;
    ||| 0x9 <= u <= 0xd
    ||| u == 0x20
    ||| u == 0x85
    ||| u == 0xa0
    ||| u == 0x1680
    ||| 0x2000 <= u <= 0x200a
    ||| u == 0x2028
    ||| u == 0x2029
    ||| u == 0x202f
    ||| u == 0x205f
    ||| u == 0x3000
}

/// Whether `c` is Unicode whitespace.
pub fn char_is_space(c: char) -> (b: bool)
    ensures
        b == is_space(c),
{
    let u = c as u32;
    (0x9 <= u && u <= 0xd) || u == 0x20 || u == 0x85 || u == 0xa0 || u == 0x1680 || (0x2000 <= u
        && u <= 0x200a) || u == 0x2028 || u == 0x2029 || u == 0x202f || u == 0x205f || u == 0x3000
}

/// `s` without its leading whitespace.
pub open spec fn trim_start(s: Seq<char>) -> Seq<char>
    decreases s.len(),
{
    if s.len() > 0 && is_space(s[0]) {
        trim_start(s.drop_first())
    } else {
        s
    }
}

/// `s` without its trailing whitespace.
pub open spec fn trim_end(s: Seq<char>) -> Seq<char>
    decreases s.len(),
{
    if s.len() > 0 && is_space(s.last()) {
        trim_end(s.drop_last())
    } else {
        s
    }
}

/// `s` without leading and trailing whitespace, as `str::trim` returns it.
pub open spec fn trim(s: Seq<char>) -> Seq<char> {
    trim_end(trim_start(s))
}

/// Appends one character to a string.
/// Calls `String::push`; the contract claims what its documentation says:
/// the string afterwards is the old one followed by `c`.
#[verifier::external_body]
pub(crate) fn string_push(s: &mut String, c: char)
    ensures
        final(s)@ == old(s)@.push(c),
{
    s.push(c);
}

/// The characters of a string slice, in order.
pub fn chars_of(s: &str) -> (r: Vec<char>)
    ensures
        r@ == s@,
{
    let mut r: Vec<char> = Vec::new();
    broadcast use vstd::string::group_string_axioms;

    for c in it: s.chars()
        invariant
            r@ == it.seq().take(it.index() as int),
            it.seq() == s@,
    {
        r.push(c);
    }
    r
}

/// The string made of `v[from..to]`.
pub fn string_of(v: &Vec<char>, from: usize, to: usize) -> (r: String)
    requires
        from <= to <= v@.len(),
    ensures
        r@ == v@.subrange(from as int, to as int),
{
    let mut r = String::new();
    let mut i = from;
    while i < to
        invariant
            from <= i <= to <= v@.len(),
            r@ == v@.subrange(from as int, i as int),
        decreases to - i,
    {
        string_push(&mut r, v[i]);
        i = i + 1;
    }
    r
}

proof fn lemma_trim_start_skip(s: Seq<char>, i: int)
    requires
        0 <= i < s.len(),
        is_space(s[i]),
    ensures
        trim_start(s.skip(i)) == trim_start(s.skip(i + 1)),
{
    assert(s.skip(i).drop_first() =~= s.skip(i + 1));
}

proof fn lemma_trim_end_take(s: Seq<char>, j: int)
    requires
        0 < j <= s.len(),
        is_space(s[j - 1]),
    ensures
        trim_end(s.take(j)) == trim_end(s.take(j - 1)),
{
    assert(s.take(j).drop_last() =~= s.take(j - 1));
}

/// The bounds `(a, b)` such that `v[a..b]` is `v` trimmed.
pub fn trim_bounds(v: &Vec<char>) -> (r: (usize, usize))
    ensures
        r.0 <= r.1 <= v@.len(),
        v@.subrange(r.0 as int, r.1 as int) == trim(v@),
{
    let mut i: usize = 0;
    while i < v.len() && char_is_space(v[i])
        invariant
            i <= v@.len(),
            trim_start(v@) == trim_start(v@.skip(i as int)),
        decreases v.len() - i,
    {
        proof {
            lemma_trim_start_skip(v@, i as int);
        }
        i = i + 1;
    }
    let ghost t = v@.skip(i as int);
    assert(trim_start(v@) == t) by {
        if i == v.len() {
            assert(t.len() == 0);
        }
    }
    let mut j: usize = v.len();
    while j > i && char_is_space(v[j - 1])
        invariant
            i <= j <= v@.len(),
            t == v@.skip(i as int),
            trim_end(t) == trim_end(t.take(j - i)),
        decreases j,
    {
        proof {
            lemma_trim_end_take(t, j - i);
        }
        j = j - 1;
    }
    assert(t.take(j - i) =~= v@.subrange(i as int, j as int));
    (i, j)
}

/// `s` without leading and trailing whitespace.
pub fn trim_str(s: &str) -> (r: String)
    ensures
        r@ == trim(s@),
{
    let cs = chars_of(s);
    let (a, b) = trim_bounds(&cs);
    string_of(&cs, a, b)
}

/// A separator that splits text into pieces.
#[derive(Clone, Copy, PartialEq, Eq, Structural)]
pub enum Separator {
    /// Any whitespace character.
    Whitespace,
    /// One given character.
    Char(char),
}

/// Whether `c` separates pieces under `sep`.
pub open spec fn separates(sep: Separator, c: char) -> bool {
    match sep {
        Separator::Whitespace => is_space(c),
        Separator::Char(d) => c == d,
    }
}

fn separator_matches(sep: Separator, c: char) -> (b: bool)
    ensures
        b == separates(sep, c),
{
    match sep {
        Separator::Whitespace => char_is_space(c),
        Separator::Char(d) => c == d,
    }
}

/// The pieces of `s` between separators, empty ones included, as `str::split`
/// yields them: there is always at least one piece.
pub open spec fn pieces(s: Seq<char>, sep: Separator) -> Seq<Seq<char>>
    decreases s.len(),
{
    if s.len() == 0 {
        seq![Seq::<char>::empty()]
    } else {
        let p = pieces(s.drop_last(), sep);
        if separates(sep, s.last()) {
            p.push(Seq::<char>::empty())
        } else {
            p.update(p.len() - 1, p.last().push(s.last()))
        }
    }
}

/// Whether a piece is non-empty.
pub open spec fn non_empty(w: Seq<char>) -> bool {
    w.len() > 0
}

/// The whitespace-separated words of `s`, as `str::split_whitespace` yields them.
pub open spec fn words(s: Seq<char>) -> Seq<Seq<char>> {
    pieces(s, Separator::Whitespace).filter(|w: Seq<char>| non_empty(w))
}

/// The views of a sequence of strings.
pub open spec fn views(v: Seq<String>) -> Seq<Seq<char>> {
    v.map_values(|s: String| s@)
}

/// Splitting always gives at least one piece.
pub proof fn lemma_pieces_len(s: Seq<char>, sep: Separator)
    ensures
        pieces(s, sep).len() >= 1,
    decreases s.len(),
{
    if s.len() > 0 {
        lemma_pieces_len(s.drop_last(), sep);
    }
}

/// The pieces of `s` between separators `sep`.
pub fn split_pieces(s: &str, sep: Separator) -> (r: Vec<String>)
    ensures
        views(r@) == pieces(s@, sep),
{
    let cs = chars_of(s);
    let mut out: Vec<String> = Vec::new();
    let mut cur = String::new();
    let mut i: usize = 0;
    while i < cs.len()
        invariant
            i <= cs@.len(),
            cs@ == s@,
            views(out@).push(cur@) == pieces(cs@.take(i as int), sep),
        decreases cs.len() - i,
    {
        let c = cs[i];
        let ghost prev = cs@.take(i as int);
        proof {
            assert(cs@.take(i + 1).drop_last() =~= prev);
            lemma_pieces_len(prev, sep);
        }
        if separator_matches(sep, c) {
            let done = cur;
            out.push(done);
            cur = String::new();
            assert(views(out@).push(cur@) =~= pieces(cs@.take(i + 1), sep));
        } else {
            string_push(&mut cur, c);
            assert(views(out@).push(cur@) =~= pieces(cs@.take(i + 1), sep));
        }
        i = i + 1;
    }
    assert(cs@.take(cs@.len() as int) =~= cs@);
    out.push(cur);
    assert(views(out@) =~= pieces(s@, sep));
    out
}

/// The whitespace-separated words of `s`.
pub fn split_words(s: &str) -> (r: Vec<String>)
    ensures
        views(r@) == words(s@),
{
    let ps = split_pieces(s, Separator::Whitespace);
    let ghost all = views(ps@);
    let ghost keep = |w: Seq<char>| non_empty(w);
    let mut out: Vec<String> = Vec::new();
    let mut j: usize = 0;
    while j < ps.len()
        invariant
            j <= ps@.len(),
            all == views(ps@),
            keep == (|w: Seq<char>| non_empty(w)),
            views(out@) == all.take(j as int).filter(keep),
        decreases ps.len() - j,
    {
        proof {
            assert(all.take(j + 1) =~= all.take(j as int).push(all[j as int]));
            all.take(j as int).lemma_filter_push(all[j as int], keep);
        }
        let w = ps[j].clone();
        assert(w@ == all[j as int]);
        let ghost before = out@;
        let ws: &str = w.as_str();
        let empty = ws.is_empty();
        if !empty {
            out.push(w);
            assert(keep(all[j as int]));
            assert(views(out@) =~= views(before).push(all[j as int]));
        } else {
            assert(!keep(all[j as int]));
        }
        j = j + 1;
    }
    assert(all.take(ps@.len() as int) =~= all);
    out
}

/// The pieces of `ws` joined with `sep` between neighbours, as `[T]::join` builds it.
pub open spec fn join(ws: Seq<Seq<char>>, sep: char) -> Seq<char>
    decreases ws.len(),
{
    if ws.len() == 0 {
        Seq::empty()
    } else if ws.len() == 1 {
        ws[0]
    } else {
        join(ws.drop_last(), sep).push(sep) + ws.last()
    }
}

/// The strings of `v` joined with `sep` between neighbours.
pub fn join_strings(v: &Vec<String>, sep: char) -> (r: String)
    ensures
        r@ == join(views(v@), sep),
{
    let mut r = String::new();
    let mut i: usize = 0;
    while i < v.len()
        invariant
            i <= v@.len(),
            r@ == join(views(v@).take(i as int), sep),
        decreases v.len() - i,
    {
        let ghost done = views(v@).take(i as int);
        let ghost next = views(v@).take(i + 1);
        assert(next.drop_last() =~= done);
        assert(next.last() == v@[i as int]@);
        if i > 0 {
            string_push(&mut r, sep);
        }
        r.append(v[i].as_str());
        assert(r@ =~= join(next, sep));
        i = i + 1;
    }
    assert(views(v@).take(v@.len() as int) =~= views(v@));
    r
}

/// A text that has no separator in it is one piece.
pub proof fn lemma_pieces_single(w: Seq<char>, sep: Separator)
    requires
        forall|k: int| 0 <= k < w.len() ==> !separates(sep, #[trigger] w[k]),
    ensures
        pieces(w, sep) == seq![w],
    decreases w.len(),
{
    if w.len() > 0 {
        lemma_pieces_single(w.drop_last(), sep);
        assert(w.drop_last().push(w.last()) =~= w);
        assert(!separates(sep, w[w.len() - 1]));
        assert(seq![w.drop_last()].update(0, w.drop_last().push(w.last())) =~= seq![w]);
    } else {
        assert(w =~= Seq::<char>::empty());
    }
}

/// Splitting at a separator character splits the text on either side apart.
pub proof fn lemma_pieces_concat(a: Seq<char>, c: char, b: Seq<char>, sep: Separator)
    requires
        separates(sep, c),
    ensures
        pieces(a.push(c) + b, sep) == pieces(a, sep) + pieces(b, sep),
    decreases b.len(),
{
    if b.len() == 0 {
        assert(a.push(c) + b =~= a.push(c));
        assert(a.push(c).drop_last() =~= a);
        assert(pieces(a, sep).push(Seq::<char>::empty()) =~= pieces(a, sep) + seq![Seq::<char>::empty()]);
    } else {
        let b0 = b.drop_last();
        lemma_pieces_concat(a, c, b0, sep);
        lemma_pieces_len(b0, sep);
        lemma_pieces_len(a, sep);
        assert((a.push(c) + b).drop_last() =~= a.push(c) + b0);
        assert((a.push(c) + b).last() == b.last());
        let pa = pieces(a, sep);
        let pb = pieces(b0, sep);
        if separates(sep, b.last()) {
            assert((pa + pb).push(Seq::<char>::empty()) =~= pa + pb.push(Seq::<char>::empty()));
        } else {
            assert((pa + pb).update((pa + pb).len() - 1, (pa + pb).last().push(b.last())) =~= pa
                + pb.update(pb.len() - 1, pb.last().push(b.last())));
        }
    }
}

/// Splitting joined pieces at the joining character gives the pieces back,
/// when none of them holds that character.
pub proof fn lemma_pieces_of_join(ws: Seq<Seq<char>>, c: char)
    requires
        ws.len() >= 1,
        forall|i: int, k: int|
            0 <= i < ws.len() && 0 <= k < ws[i].len() ==> #[trigger] ws[i][k] != c,
    ensures
        pieces(join(ws, c), Separator::Char(c)) == ws,
    decreases ws.len(),
{
    let sep = Separator::Char(c);
    if ws.len() == 1 {
        assert forall|k: int| 0 <= k < ws[0].len() implies !separates(sep, #[trigger] ws[0][k]) by {
            assert(ws[0][k] != c);
        }
        lemma_pieces_single(ws[0], sep);
        assert(seq![ws[0]] =~= ws);
    } else {
        let init = ws.drop_last();
        assert forall|i: int, k: int|
            0 <= i < init.len() && 0 <= k < init[i].len() implies #[trigger] init[i][k] != c by {
            assert(init[i] == ws[i]);
        }
        lemma_pieces_of_join(init, c);
        assert forall|k: int| 0 <= k < ws.last().len() implies !separates(
            sep,
            #[trigger] ws.last()[k],
        ) by {
            assert(ws[ws.len() - 1][k] != c);
        }
        lemma_pieces_single(ws.last(), sep);
        lemma_pieces_concat(join(init, c), c, ws.last(), sep);
        assert(init + seq![ws.last()] =~= ws);
    }
}

/// The character of a decimal digit.
pub open spec fn digit_char(d: nat) -> char {
    (48 + d) as char
}

/// The decimal rendering of `n`, without sign or leading zeros.
pub open spec fn decimal(n: nat) -> Seq<char>
    decreases n,
{
    if n < 10 {
        seq![digit_char(n)]
    } else {
        decimal(n / 10).push(digit_char(n % 10))
    }
}

/// Appends the decimal rendering of `n` to `s`.
pub fn push_decimal(s: &mut String, n: u64)
    ensures
        final(s)@ == old(s)@ + decimal(n as nat),
    decreases n,
{
    if n >= 10 {
        push_decimal(s, n / 10);
    }
    let d: u8 = (n % 10) as u8;
    let c: char = (48u8 + d) as char;
    assert(c == digit_char((n % 10) as nat));
    string_push(s, c);
    if n >= 10 {
        assert(s@ =~= old(s)@ + decimal(n as nat));
    } else {
        assert(s@ =~= old(s)@ + decimal(n as nat));
    }
}

} // verus!
