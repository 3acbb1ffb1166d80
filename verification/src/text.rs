//! Character-level text operations: substring search, prefixes and the
//! splitting of text into lines.
use vstd::prelude::*;

verus! {

/// `needle` occurs in `hay` as a contiguous run of characters (the empty
/// needle occurs in every text).
pub open spec fn seq_contains(hay: Seq<char>, needle: Seq<char>) -> bool {
    exists|i: int|
        0 <= i && i + needle.len() <= hay.len() && #[trigger] hay.subrange(i, i + needle.len())
            == needle
}

/// `s` begins with `prefix`.
pub open spec fn has_prefix(s: Seq<char>, prefix: Seq<char>) -> bool {
    prefix.len() <= s.len() && s.subrange(0, prefix.len() as int) == prefix
}

/// The pieces of `s` between newline characters, in order; there is always
/// one piece more than there are newlines.
pub open spec fn newline_pieces(s: Seq<char>) -> Seq<Seq<char>>
    decreases s.len(),
{
    if s.len() == 0 {
        seq![Seq::<char>::empty()]
    } else {
        let rest = newline_pieces(s.drop_last());
        if s.last() == '\n' {
            rest.push(Seq::<char>::empty())
        } else {
            rest.update(rest.len() - 1, rest.last().push(s.last()))
        }
    }
}

/// A line that was ended by a newline loses one carriage return before it.
pub open spec fn strip_cr(line: Seq<char>) -> Seq<char> {
    if line.len() > 0 && line.last() == '\r' {
        line.drop_last()
    } else {
        line
    }
}

/// The lines of `s`: split at each `\n`, with a `\r` directly before the `\n`
/// removed; a final line ending adds no empty line.
pub open spec fn text_lines(s: Seq<char>) -> Seq<Seq<char>> {
    let p = newline_pieces(s);
    p.drop_last().map_values(|l: Seq<char>| strip_cr(l)) + if p.last().len() == 0 {
        Seq::<Seq<char>>::empty()
    } else {
        seq![p.last()]
    }
}

/// The last piece of a text that ends in a newline is empty.
proof fn lemma_pieces_after_newline(x: Seq<char>)
    requires
        x.len() > 0,
        x.last() == '\n',
    ensures
        newline_pieces(x) == newline_pieces(x.drop_last()).push(Seq::<char>::empty()),
{
}

/// There is always at least one piece.
pub proof fn lemma_newline_pieces_nonempty(s: Seq<char>)
    ensures
        newline_pieces(s).len() >= 1,
    decreases s.len(),
{
    if s.len() > 0 {
        lemma_newline_pieces_nonempty(s.drop_last());
    }
}

/// A text with no newline is one piece: itself.
pub proof fn lemma_newline_pieces_single(s: Seq<char>)
    requires
        forall|i: int| 0 <= i < s.len() ==> s[i] != '\n',
    ensures
        newline_pieces(s) == seq![s],
    decreases s.len(),
{
    if s.len() > 0 {
        lemma_newline_pieces_single(s.drop_last());
        assert(s.drop_last().push(s.last()) =~= s);
        assert(newline_pieces(s) =~= seq![s]);
    } else {
        assert(s =~= Seq::<char>::empty());
        assert(newline_pieces(s) =~= seq![s]);
    }
}

/// Cutting a text just after a newline cuts its pieces there.
proof fn lemma_newline_pieces_concat(x: Seq<char>, y: Seq<char>)
    requires
        x.len() > 0,
        x.last() == '\n',
    ensures
        newline_pieces(x + y) == newline_pieces(x).drop_last() + newline_pieces(y),
    decreases y.len(),
{
    lemma_pieces_after_newline(x);
    lemma_newline_pieces_nonempty(x.drop_last());
    let d = newline_pieces(x).drop_last();
    if y.len() == 0 {
        assert(x + y =~= x);
        assert(newline_pieces(x) =~= d + newline_pieces(y));
    } else {
        let y0 = y.drop_last();
        lemma_newline_pieces_concat(x, y0);
        lemma_newline_pieces_nonempty(y0);
        assert((x + y).drop_last() =~= x + y0);
        assert((x + y).last() == y.last());
        let p = newline_pieces(y0);
        let dp = d + p;
        assert(dp.last() == p.last());
        if y.last() == '\n' {
            assert(dp.push(Seq::<char>::empty()) =~= d + p.push(Seq::<char>::empty()));
        } else {
            assert(dp.update(dp.len() - 1, dp.last().push(y.last())) =~= d + p.update(
                p.len() - 1,
                p.last().push(y.last()),
            ));
        }
    }
}

/// Lines split where the text does: the lines of a text that ends in a
/// newline, followed by anything, are its lines followed by the lines of what
/// follows.
pub proof fn lemma_text_lines_concat(x: Seq<char>, y: Seq<char>)
    requires
        x.len() > 0,
        x.last() == '\n',
    ensures
        text_lines(x + y) == text_lines(x) + text_lines(y),
{
    lemma_newline_pieces_concat(x, y);
    lemma_pieces_after_newline(x);
    lemma_newline_pieces_nonempty(y);
    let d = newline_pieces(x).drop_last();
    let p = newline_pieces(y);
    assert((d + p).drop_last() =~= d + p.drop_last());
    assert((d + p).last() == p.last());
    assert((d + p.drop_last()).map_values(|l: Seq<char>| strip_cr(l)) =~= d.map_values(
        |l: Seq<char>| strip_cr(l),
    ) + p.drop_last().map_values(|l: Seq<char>| strip_cr(l)));
    assert(newline_pieces(x).drop_last() == d);
    assert(newline_pieces(x).last().len() == 0);
    assert(text_lines(x) =~= d.map_values(|l: Seq<char>| strip_cr(l)));
    assert(text_lines(x + y) =~= text_lines(x) + text_lines(y));
}

/// A line without a newline is one line: ended by a newline it loses a
/// trailing carriage return; alone (and not empty) it is kept as it is.
pub proof fn lemma_text_lines_of_one_line(l: Seq<char>)
    requires
        forall|i: int| 0 <= i < l.len() ==> l[i] != '\n',
    ensures
        text_lines(l.push('\n')) == seq![strip_cr(l)],
        l.len() > 0 ==> text_lines(l) == seq![l],
        l.len() == 0 ==> text_lines(l) == Seq::<Seq<char>>::empty(),
{
    lemma_newline_pieces_single(l);
    assert(l.push('\n').drop_last() =~= l);
    lemma_pieces_after_newline(l.push('\n'));
    let p = newline_pieces(l.push('\n'));
    assert(p =~= seq![l, Seq::<char>::empty()]);
    assert(p.drop_last() =~= seq![l]);
    assert(text_lines(l.push('\n')) =~= seq![strip_cr(l)]);
    if l.len() > 0 {
        assert(text_lines(l) =~= seq![l]);
    } else {
        assert(text_lines(l) =~= Seq::<Seq<char>>::empty());
    }
}

/// The characters of `s`, in order.
pub fn chars_of(s: &str) -> (out: Vec<char>)
    ensures
        out@ == s@,
{
    let mut out: Vec<char> = Vec::new();
    for c in it: s.chars()
        invariant
            out@ == it.seq().take(it.index() as int),
    {
        out.push(c);
    }
    out
}

/// Whether `needle` occurs in `hay` starting at position `at`.
pub fn occurs_at(hay: &Vec<char>, needle: &Vec<char>, at: usize) -> (b: bool)
    requires
        at + needle.len() <= hay.len(),
    ensures
        b == (hay@.subrange(at as int, at + needle.len()) == needle@),
{
    let n = needle.len();
    let mut k: usize = 0;
    while k < n
        invariant
            n == needle.len(),
            at + n <= hay.len(),
            k <= n,
            forall|j: int| 0 <= j < k ==> hay@[at + j] == needle@[j],
        decreases n - k,
    {
        if hay[at + k] != needle[k] {
            assert(hay@.subrange(at as int, at + n)[k as int] != needle@[k as int]);
            return false;
        }
        k = k + 1;
    }
    assert(hay@.subrange(at as int, at + n) =~= needle@);
    true
}

/// Whether `needle` occurs in the part `lo..hi` of `hay`.
pub fn contains_in(hay: &Vec<char>, lo: usize, hi: usize, needle: &Vec<char>) -> (b: bool)
    requires
        lo <= hi <= hay.len(),
    ensures
        b == seq_contains(hay@.subrange(lo as int, hi as int), needle@),
{
    let ghost part = hay@.subrange(lo as int, hi as int);
    if needle.len() > hi - lo {
        return false;
    }
    let last = hi - needle.len();
    let mut at: usize = lo;
    loop
        invariant
            lo <= hi <= hay.len(),
            part == hay@.subrange(lo as int, hi as int),
            needle.len() <= hi - lo,
            last == hi - needle.len(),
            lo <= at <= last,
            forall|i: int|
                0 <= i < at - lo ==> #[trigger] part.subrange(i, i + needle.len()) != needle@,
        decreases last - at,
    {
        if occurs_at(hay, needle, at) {
            assert(part.subrange(at - lo, at - lo + needle.len()) =~= hay@.subrange(
                at as int,
                at + needle.len(),
            ));
            return true;
        }
        assert(part.subrange(at - lo, at - lo + needle.len()) =~= hay@.subrange(
            at as int,
            at + needle.len(),
        ));
        if at == last {
            return false;
        }
        at = at + 1;
    }
}

/// Whether `needle` occurs anywhere in `hay`.
pub fn contains(hay: &Vec<char>, needle: &Vec<char>) -> (b: bool)
    ensures
        b == seq_contains(hay@, needle@),
{
    assert(hay@.subrange(0, hay@.len() as int) =~= hay@);
    contains_in(hay, 0, hay.len(), needle)
}

/// Whether the part `lo..hi` of `s` begins with `prefix`.
pub fn starts_with_in(s: &Vec<char>, lo: usize, hi: usize, prefix: &Vec<char>) -> (b: bool)
    requires
        lo <= hi <= s.len(),
    ensures
        b == has_prefix(s@.subrange(lo as int, hi as int), prefix@),
{
    if prefix.len() > hi - lo {
        false
    } else {
        let r = occurs_at(s, prefix, lo);
        assert(s@.subrange(lo as int, hi as int).subrange(0, prefix@.len() as int) =~= s@.subrange(
            lo as int,
            lo + prefix.len(),
        ));
        r
    }
}

/// Whether the part `lo..hi` of `s` is exactly `needle`.
pub fn equals_in(s: &Vec<char>, lo: usize, hi: usize, needle: &Vec<char>) -> (b: bool)
    requires
        lo <= hi <= s.len(),
    ensures
        b == (s@.subrange(lo as int, hi as int) == needle@),
{
    if hi - lo != needle.len() {
        false
    } else {
        occurs_at(s, needle, lo)
    }
}

} // verus!
