//! Text as a sequence of characters: the handful of operations on lines, words
//! and substrings that the rest of the library is written with.
use vstd::prelude::*;

verus! {

/// Appending one character, as `String::push` documents it.
pub assume_specification[ String::push ](s: &mut String, c: char)
    ensures
        final(s)@ == old(s)@.push(c),
;

/// The characters of every string of a list.
pub open spec fn texts(v: Seq<String>) -> Seq<Seq<char>> {
    Seq::new(v.len(), |i: int| v[i]@)
}

/// The characters of every borrowed string of a list.
pub open spec fn strs(v: Seq<&str>) -> Seq<Seq<char>> {
    Seq::new(v.len(), |i: int| v[i]@)
}

/// The characters of an optional string.
pub open spec fn maybe(o: Option<String>) -> Option<Seq<char>> {
    match o {
        Some(s) => Some(s@),
        None => None,
    }
}

/// The characters of a string, one by one.
pub fn chars(s: &str) -> (r: Vec<char>)
    ensures
        r@ == s@,
{
    let mut out: Vec<char> = Vec::new();
    for c in it: s.chars()
        invariant
            it.seq() == s@,
            out@ == s@.take(it.index()),
    {
        out.push(c);
    }
    assert(s@.take(s@.len() as int) == s@);
    out
}

/// The text made of the characters `v[lo..hi]`.
pub fn slice_text(v: &Vec<char>, lo: usize, hi: usize) -> (r: String)
    requires
        lo <= hi <= v@.len(),
    ensures
        r@ == v@.subrange(lo as int, hi as int),
{
    let mut out = String::new();
    let mut i: usize = lo;
    while i < hi
        invariant
            lo <= i <= hi <= v@.len(),
            out@ == v@.subrange(lo as int, i as int),
        decreases hi - i,
    {
        out.push(v[i]);
        i = i + 1;
    }
    out
}

/// Whether two texts hold the same characters.
pub fn same(a: &str, b: &str) -> (r: bool)
    ensures
        r == (a@ == b@),
{
    a.to_owned() == b.to_owned()
}

/// Three texts, one after the other.
pub fn cat3(a: &str, b: &str, c: &str) -> (r: String)
    ensures
        r@ == a@ + b@ + c@,
{
    let mut out = a.to_owned();
    out.append(b);
    out.append(c);
    out
}

/// Two texts, one after the other.
pub fn cat2(a: &str, b: &str) -> (r: String)
    ensures
        r@ == a@ + b@,
{
    let mut out = a.to_owned();
    out.append(b);
    out
}

// ---------------------------------------------------------------------------
// White space.
// ---------------------------------------------------------------------------

/// The characters with the Unicode property `White_Space`.
pub open spec fn is_space(c: char) -> bool {
    ||| '\u{9}' <= c <= '\u{d}'
    ||| c == ' '
    ||| c == '\u{85}'
    ||| c == '\u{a0}'
    ||| c == '\u{1680}'
    ||| '\u{2000}' <= c <= '\u{200a}'
    ||| c == '\u{2028}'
    ||| c == '\u{2029}'
    ||| c == '\u{202f}'
    ||| c == '\u{205f}'
    ||| c == '\u{3000}'
}

/// Whether `c` is white space.
pub fn space(c: char) -> (r: bool)
    ensures
        r == is_space(c),
{
    ('\u{9}' <= c && c <= '\u{d}') || c == ' ' || c == '\u{85}' || c == '\u{a0}' || c == '\u{1680}'
        || ('\u{2000}' <= c && c <= '\u{200a}') || c == '\u{2028}' || c == '\u{2029}' || c
        == '\u{202f}' || c == '\u{205f}' || c == '\u{3000}'
}

/// `s` without its leading white space.
pub open spec fn trimmed_start(s: Seq<char>) -> Seq<char>
    decreases s.len(),
{
    if s.len() > 0 && is_space(s[0]) {
        trimmed_start(s.drop_first())
    } else {
        s
    }
}

/// `s` without its trailing white space.
pub open spec fn trimmed_end(s: Seq<char>) -> Seq<char>
    decreases s.len(),
{
    if s.len() > 0 && is_space(s.last()) {
        trimmed_end(s.drop_last())
    } else {
        s
    }
}

/// `s` without white space at either end.
pub open spec fn trimmed(s: Seq<char>) -> Seq<char> {
    trimmed_end(trimmed_start(s))
}

/// The first position of `v` at or after `lo` that holds no white space.
fn skip_space(v: &Vec<char>, lo: usize) -> (r: usize)
    requires
        lo <= v@.len(),
    ensures
        lo <= r <= v@.len(),
        trimmed_start(v@.skip(lo as int)) == v@.skip(r as int),
        r < v@.len() ==> !is_space(v@[r as int]),
{
    let mut i: usize = lo;
    while i < v.len() && space(v[i])
        invariant
            lo <= i <= v@.len(),
            trimmed_start(v@.skip(lo as int)) == trimmed_start(v@.skip(i as int)),
        decreases v@.len() - i,
    {
        assert(v@.skip(i as int).drop_first() == v@.skip(i + 1));
        i = i + 1;
    }
    i
}

/// The end of `v[lo..]` once its trailing white space is dropped.
fn drop_space(v: &Vec<char>, lo: usize) -> (r: usize)
    requires
        lo <= v@.len(),
    ensures
        lo <= r <= v@.len(),
        trimmed_end(v@.skip(lo as int)) == v@.subrange(lo as int, r as int),
{
    let mut i: usize = v.len();
    assert(v@.skip(lo as int) == v@.subrange(lo as int, i as int));
    while i > lo && space(v[i - 1])
        invariant
            lo <= i <= v@.len(),
            trimmed_end(v@.skip(lo as int)) == trimmed_end(v@.subrange(lo as int, i as int)),
        decreases i,
    {
        assert(v@.subrange(lo as int, i as int).drop_last() == v@.subrange(lo as int, i - 1));
        i = i - 1;
    }
    i
}

/// `s` without white space at either end.
pub fn trim(s: &str) -> (r: String)
    ensures
        r@ == trimmed(s@),
{
    let v = chars(s);
    assert(v@.skip(0) == v@);
    let lo = skip_space(&v, 0);
    let hi = drop_space(&v, lo);
    slice_text(&v, lo, hi)
}

/// `s` without its trailing white space.
pub fn trim_end(s: &str) -> (r: String)
    ensures
        r@ == trimmed_end(s@),
{
    let v = chars(s);
    assert(v@.skip(0) == v@);
    let hi = drop_space(&v, 0);
    slice_text(&v, 0, hi)
}

// ---------------------------------------------------------------------------
// Splitting.
// ---------------------------------------------------------------------------

/// How many characters come before the first `c` of `s`; all of them when there is none.
pub open spec fn before(s: Seq<char>, c: char) -> int
    decreases s.len(),
{
    if s.len() == 0 || s[0] == c {
        0
    } else {
        1 + before(s.drop_first(), c)
    }
}

/// How many characters come before the first white space of `s`.
pub open spec fn before_space(s: Seq<char>) -> int
    decreases s.len(),
{
    if s.len() == 0 || is_space(s[0]) {
        0
    } else {
        1 + before_space(s.drop_first())
    }
}

/// What [`before`] counts lies within the text and ends at `c`.
pub proof fn lemma_before(s: Seq<char>, c: char)
    ensures
        0 <= before(s, c) <= s.len(),
        before(s, c) < s.len() ==> s[before(s, c)] == c,
        forall|i: int| 0 <= i < before(s, c) ==> s[i] != c,
    decreases s.len(),
{
    if s.len() > 0 && s[0] != c {
        lemma_before(s.drop_first(), c);
        assert forall|i: int| 0 <= i < before(s, c) implies s[i] != c by {
            if i > 0 {
                assert(s.drop_first()[i - 1] == s[i]);
            }
        }
    }
}

/// What [`before_space`] counts lies within the text, ends at white space and holds none.
pub proof fn lemma_before_space(s: Seq<char>)
    ensures
        0 <= before_space(s) <= s.len(),
        before_space(s) < s.len() ==> is_space(s[before_space(s)]),
        forall|i: int| 0 <= i < before_space(s) ==> !is_space(#[trigger] s[i]),
    decreases s.len(),
{
    if s.len() > 0 && !is_space(s[0]) {
        lemma_before_space(s.drop_first());
        assert forall|i: int| 0 <= i < before_space(s) implies !is_space(#[trigger] s[i]) by {
            if i > 0 {
                assert(s.drop_first()[i - 1] == s[i]);
            }
        }
    }
}

/// The pieces of `s` between the characters `c`.
pub open spec fn split_at_char(s: Seq<char>, c: char) -> Seq<Seq<char>>
    decreases s.len(),
    via split_at_char_ends
{
    let k = before(s, c);
    if k < s.len() {
        seq![s.take(k)] + split_at_char(s.skip(k + 1), c)
    } else {
        seq![s]
    }
}

/// Each step of [`split_at_char`] leaves a shorter text.
#[via_fn]
proof fn split_at_char_ends(s: Seq<char>, c: char) {
    lemma_before(s, c);
}

/// `s` without one `'\r'` at its end.
pub open spec fn without_return(s: Seq<char>) -> Seq<char> {
    if s.len() > 0 && s.last() == '\r' {
        s.drop_last()
    } else {
        s
    }
}

/// The lines of `s`: what ends in `'\n'` or `"\r\n"`, and a last piece that is not empty.
pub open spec fn lines_of(s: Seq<char>) -> Seq<Seq<char>>
    decreases s.len(),
    via lines_of_ends
{
    let k = before(s, '\n');
    if s.len() == 0 {
        seq![]
    } else if k < s.len() {
        seq![without_return(s.take(k))] + lines_of(s.skip(k + 1))
    } else {
        seq![s]
    }
}

/// Each step of [`lines_of`] leaves a shorter text.
#[via_fn]
proof fn lines_of_ends(s: Seq<char>) {
    lemma_before(s, '\n');
}

/// The longest pieces of `s` that hold no white space.
pub open spec fn words_of(s: Seq<char>) -> Seq<Seq<char>>
    decreases s.len(),
    via words_of_ends
{
    let t = trimmed_start(s);
    let k = before_space(t);
    if t.len() == 0 {
        seq![]
    } else {
        seq![t.take(k)] + words_of(t.skip(k))
    }
}

/// Dropping leading white space leaves no more than was there, and no white space first.
pub proof fn lemma_trimmed_start(s: Seq<char>)
    ensures
        trimmed_start(s).len() <= s.len(),
        trimmed_start(s).len() > 0 ==> !is_space(trimmed_start(s)[0]),
    decreases s.len(),
{
    if s.len() > 0 && is_space(s[0]) {
        lemma_trimmed_start(s.drop_first());
    }
}

/// Each step of [`words_of`] leaves a shorter text.
#[via_fn]
proof fn words_of_ends(s: Seq<char>) {
    lemma_trimmed_start(s);
    lemma_before_space(trimmed_start(s));
}

/// The position of the first `c` of `v` at or after `lo`, or the end.
pub fn find(v: &Vec<char>, lo: usize, c: char) -> (r: usize)
    requires
        lo <= v@.len(),
    ensures
        lo <= r <= v@.len(),
        r - lo == before(v@.skip(lo as int), c),
{
    let mut i: usize = lo;
    while i < v.len() && v[i] != c
        invariant
            lo <= i <= v@.len(),
            before(v@.skip(lo as int), c) == i - lo + before(v@.skip(i as int), c),
        decreases v@.len() - i,
    {
        assert(v@.skip(i as int).drop_first() == v@.skip(i + 1));
        i = i + 1;
    }
    i
}

/// The position of the first white space of `v` at or after `lo`, or the end.
fn find_space(v: &Vec<char>, lo: usize) -> (r: usize)
    requires
        lo <= v@.len(),
    ensures
        lo <= r <= v@.len(),
        r - lo == before_space(v@.skip(lo as int)),
{
    let mut i: usize = lo;
    while i < v.len() && !space(v[i])
        invariant
            lo <= i <= v@.len(),
            before_space(v@.skip(lo as int)) == i - lo + before_space(v@.skip(i as int)),
        decreases v@.len() - i,
    {
        assert(v@.skip(i as int).drop_first() == v@.skip(i + 1));
        i = i + 1;
    }
    i
}

/// The pieces of `s` between the characters `c`.
pub fn split(s: &str, c: char) -> (r: Vec<String>)
    ensures
        texts(r@) == split_at_char(s@, c),
{
    let v = chars(s);
    let mut out: Vec<String> = Vec::new();
    let mut lo: usize = 0;
    assert(v@.skip(0) == v@);
    assert(texts(out@) + split_at_char(v@, c) == split_at_char(v@, c));
    loop
        invariant
            lo <= v@.len(),
            v@ == s@,
            split_at_char(s@, c) == texts(out@) + split_at_char(v@.skip(lo as int), c),
        decreases v@.len() - lo,
    {
        let hi = find(&v, lo, c);
        let ghost seen = out@;
        let ghost rest = v@.skip(lo as int);
        out.push(slice_text(&v, lo, hi));
        assert(rest.take(hi - lo) == v@.subrange(lo as int, hi as int));
        if hi >= v.len() {
            assert(rest.take(hi - lo) == rest);
            assert(texts(out@) == texts(seen) + seq![rest]);
            return out;
        }
        assert(rest.skip(hi - lo + 1) == v@.skip(hi + 1));
        assert(texts(out@) == texts(seen) + seq![rest.take(hi - lo)]);
        assert(texts(out@) + split_at_char(v@.skip(hi + 1), c) == texts(seen) + (seq![
            rest.take(hi - lo),
        ] + split_at_char(rest.skip(hi - lo + 1), c)));
        lo = hi + 1;
    }
}

/// The lines of `s`.
pub fn lines(s: &str) -> (r: Vec<String>)
    ensures
        texts(r@) == lines_of(s@),
{
    let v = chars(s);
    let mut out: Vec<String> = Vec::new();
    let mut lo: usize = 0;
    assert(v@.skip(0) == v@);
    assert(texts(out@) + lines_of(v@) == lines_of(v@));
    while lo < v.len()
        invariant
            lo <= v@.len(),
            v@ == s@,
            lines_of(s@) == texts(out@) + lines_of(v@.skip(lo as int)),
        decreases v@.len() - lo,
    {
        let hi = find(&v, lo, '\n');
        let ghost seen = out@;
        let ghost rest = v@.skip(lo as int);
        assert(rest.take(hi - lo) == v@.subrange(lo as int, hi as int));
        if hi >= v.len() {
            out.push(slice_text(&v, lo, hi));
            assert(rest.take(hi - lo) == rest);
            assert(texts(out@) == texts(seen) + seq![rest]);
            return out;
        }
        let end: usize = if hi > lo && v[hi - 1] == '\r' { hi - 1 } else { hi };
        out.push(slice_text(&v, lo, end));
        assert(v@.subrange(lo as int, end as int) == without_return(rest.take(hi - lo)));
        assert(rest.skip(hi - lo + 1) == v@.skip(hi + 1));
        assert(texts(out@) == texts(seen) + seq![without_return(rest.take(hi - lo))]);
        assert(texts(out@) + lines_of(v@.skip(hi + 1)) == texts(seen) + (seq![
            without_return(rest.take(hi - lo)),
        ] + lines_of(rest.skip(hi - lo + 1))));
        lo = hi + 1;
    }
    assert(v@.skip(lo as int).len() == 0);
    assert(texts(out@) + lines_of(v@.skip(lo as int)) == texts(out@));
    out
}

/// The pieces of `s` between white space.
pub fn words(s: &str) -> (r: Vec<String>)
    ensures
        texts(r@) == words_of(s@),
{
    let v = chars(s);
    let mut out: Vec<String> = Vec::new();
    let mut lo: usize = 0;
    assert(v@.skip(0) == v@);
    assert(texts(out@) + words_of(v@) == words_of(v@));
    loop
        invariant
            lo <= v@.len(),
            v@ == s@,
            words_of(s@) == texts(out@) + words_of(v@.skip(lo as int)),
        decreases v@.len() - lo,
    {
        let start = skip_space(&v, lo);
        let ghost rest = v@.skip(start as int);
        if start >= v.len() {
            assert(words_of(v@.skip(lo as int)) == Seq::<Seq<char>>::empty());
            assert(texts(out@) + words_of(v@.skip(lo as int)) == texts(out@));
            return out;
        }
        let hi = find_space(&v, start);
        let ghost seen = out@;
        out.push(slice_text(&v, start, hi));
        assert(rest.take(hi - start) == v@.subrange(start as int, hi as int));
        assert(rest.skip(hi - start) == v@.skip(hi as int));
        assert(texts(out@) == texts(seen) + seq![rest.take(hi - start)]);
        assert(texts(out@) + words_of(v@.skip(hi as int)) == texts(seen) + (seq![
            rest.take(hi - start),
        ] + words_of(rest.skip(hi - start))));
        proof {
            lemma_before_space(rest);
        }
        lo = hi;
    }
}

// ---------------------------------------------------------------------------
// Substrings.
// ---------------------------------------------------------------------------

/// Whether `s` begins with `p`.
pub open spec fn begins(s: Seq<char>, p: Seq<char>) -> bool {
    p.len() <= s.len() && s.take(p.len() as int) == p
}

/// Whether `p` stands somewhere in `s`.
pub open spec fn holds(s: Seq<char>, p: Seq<char>) -> bool {
    exists|i: int| 0 <= i <= s.len() && #[trigger] begins(s.skip(i), p)
}

/// `s` with every `from`, taken from the left and without overlap, replaced by `to`.
pub open spec fn replaced(s: Seq<char>, from: Seq<char>, to: Seq<char>) -> Seq<char>
    decreases s.len(),
{
    if from.len() == 0 || s.len() == 0 {
        s
    } else if begins(s, from) {
        to + replaced(s.skip(from.len() as int), from, to)
    } else {
        seq![s[0]] + replaced(s.drop_first(), from, to)
    }
}

/// `s` without the copies of `p` that it begins with.
pub open spec fn stripped(s: Seq<char>, p: Seq<char>) -> Seq<char>
    decreases s.len(),
{
    if p.len() > 0 && begins(s, p) {
        stripped(s.skip(p.len() as int), p)
    } else {
        s
    }
}

/// The texts of `list`, with `sep` between neighbours.
pub open spec fn joined(list: Seq<Seq<char>>, sep: Seq<char>) -> Seq<char>
    decreases list.len(),
{
    if list.len() == 0 {
        seq![]
    } else if list.len() == 1 {
        list[0]
    } else {
        joined(list.drop_last(), sep) + sep + list.last()
    }
}

/// Whether `p` stands at position `lo` of `v`.
fn stands_at(v: &Vec<char>, lo: usize, p: &Vec<char>) -> (r: bool)
    requires
        lo <= v@.len(),
    ensures
        r == begins(v@.skip(lo as int), p@),
{
    let n: usize = v.len();
    if p.len() > n - lo {
        return false;
    }
    let mut i: usize = 0;
    while i < p.len()
        invariant
            i <= p@.len(),
            lo + p@.len() <= v@.len() == n,
            v@.skip(lo as int).take(i as int) == p@.take(i as int),
        decreases p@.len() - i,
    {
        if v[lo + i] != p[i] {
            assert(v@.skip(lo as int).take(p@.len() as int)[i as int] == v@[lo + i]);
            return false;
        }
        assert(v@.skip(lo as int).take(i + 1) == v@.skip(lo as int).take(i as int).push(
            v@[lo + i],
        ));
        assert(p@.take(i + 1) == p@.take(i as int).push(p@[i as int]));
        i = i + 1;
    }
    assert(p@.take(p@.len() as int) == p@);
    true
}

/// Whether `s` begins with `p`.
pub fn starts_with(s: &str, p: &str) -> (r: bool)
    ensures
        r == begins(s@, p@),
{
    let v = chars(s);
    assert(v@.skip(0) == v@);
    stands_at(&v, 0, &chars(p))
}

/// Whether `p` stands somewhere in `s`.
pub fn contains(s: &str, p: &str) -> (r: bool)
    ensures
        r == holds(s@, p@),
{
    let v = chars(s);
    let w = chars(p);
    let mut i: usize = 0;
    loop
        invariant
            i <= v@.len(),
            v@ == s@,
            w@ == p@,
            forall|j: int| 0 <= j < i ==> !#[trigger] begins(v@.skip(j), w@),
        decreases v@.len() - i,
    {
        if stands_at(&v, i, &w) {
            return true;
        }
        if i >= v.len() {
            return false;
        }
        i = i + 1;
    }
}

/// `s` with every `from` replaced by `to`.
pub fn replace(s: &str, from: &str, to: &str) -> (r: String)
    requires
        from@.len() > 0,
    ensures
        r@ == replaced(s@, from@, to@),
{
    let v = chars(s);
    let w = chars(from);
    let mut out = String::new();
    let mut i: usize = 0;
    assert(v@.skip(0) == v@);
    assert(out@ + replaced(v@, from@, to@) == replaced(v@, from@, to@));
    while i < v.len()
        invariant
            i <= v@.len(),
            v@ == s@,
            w@ == from@,
            from@.len() > 0,
            replaced(s@, from@, to@) == out@ + replaced(v@.skip(i as int), from@, to@),
        decreases v@.len() - i,
    {
        let ghost seen = out@;
        let ghost rest = v@.skip(i as int);
        if stands_at(&v, i, &w) {
            out.append(to);
            assert(rest.skip(w@.len() as int) == v@.skip(i + w@.len()));
            assert(out@ + replaced(v@.skip(i + w@.len()), from@, to@) == seen + (to@ + replaced(
                rest.skip(w@.len() as int),
                from@,
                to@,
            )));
            i = i + w.len();
        } else {
            out.push(v[i]);
            assert(rest.drop_first() == v@.skip(i + 1));
            assert(out@ + replaced(v@.skip(i + 1), from@, to@) == seen + (seq![rest[0]] + replaced(
                rest.drop_first(),
                from@,
                to@,
            )));
            i = i + 1;
        }
    }
    assert(out@ + v@.skip(i as int) == out@);
    out
}

/// `s` without the copies of `p` that it begins with.
pub fn trim_start_matches(s: &str, p: &str) -> (r: String)
    requires
        p@.len() > 0,
    ensures
        r@ == stripped(s@, p@),
{
    let v = chars(s);
    let w = chars(p);
    let n: usize = v.len();
    let mut i: usize = 0;
    assert(v@.skip(0) == v@);
    while stands_at(&v, i, &w)
        invariant
            i <= v@.len() == n,
            v@ == s@,
            w@ == p@,
            p@.len() > 0,
            stripped(s@, p@) == stripped(v@.skip(i as int), p@),
        decreases v@.len() - i,
    {
        assert(v@.skip(i as int).skip(w@.len() as int) == v@.skip(i + w@.len()));
        i = i + w.len();
    }
    assert(v@.skip(i as int) == v@.subrange(i as int, v@.len() as int));
    slice_text(&v, i, v.len())
}

/// The texts of `list`, with `sep` between neighbours.
pub fn join(list: &Vec<String>, sep: &str) -> (r: String)
    ensures
        r@ == joined(texts(list@), sep@),
{
    let mut out = String::new();
    let ghost all = texts(list@);
    let mut i: usize = 0;
    assert(all.take(0).len() == 0);
    while i < list.len()
        invariant
            i <= list@.len(),
            all == texts(list@),
            out@ == joined(all.take(i as int), sep@),
        decreases list@.len() - i,
    {
        assert(all.take(i + 1).drop_last() == all.take(i as int));
        if i > 0 {
            out.append(sep);
            out.append(list[i].as_str());
        } else {
            out.append(list[i].as_str());
            assert(out@ == all[0]);
        }
        i = i + 1;
    }
    assert(all.take(i as int) == all);
    out
}

/// The parts of `s` before and after its first `c`, when it holds one.
pub fn split_once(s: &str, c: char) -> (r: Option<(String, String)>)
    ensures
        r is Some <==> before(s@, c) < s@.len(),
        r matches Some((a, b)) ==> a@ == s@.take(before(s@, c)) && b@ == s@.skip(
            before(s@, c) + 1,
        ),
{
    let v = chars(s);
    assert(v@.skip(0) == v@);
    let k = find(&v, 0, c);
    if k < v.len() {
        assert(v@.skip(k + 1) == v@.subrange(k + 1, v@.len() as int));
        assert(v@.take(k as int) == v@.subrange(0, k as int));
        Some((slice_text(&v, 0, k), slice_text(&v, k + 1, v.len())))
    } else {
        None
    }
}

/// Whether some text of `list` is `s`.
pub fn listed(list: &Vec<String>, s: &str) -> (r: bool)
    ensures
        r == texts(list@).contains(s@),
{
    let mut i: usize = 0;
    while i < list.len()
        invariant
            i <= list@.len(),
            forall|j: int| 0 <= j < i ==> list@[j]@ != s@,
        decreases list@.len() - i,
    {
        if same(list[i].as_str(), s) {
            assert(texts(list@)[i as int] == s@);
            return true;
        }
        i = i + 1;
    }
    assert forall|j: int| 0 <= j < texts(list@).len() implies texts(list@)[j] != s@ by {}
    false
}

/// The sequences of `list`, one after the other.
pub open spec fn concat<A>(list: Seq<Seq<A>>) -> Seq<A>
    decreases list.len(),
{
    if list.len() == 0 {
        seq![]
    } else {
        concat(list.drop_last()) + list.last()
    }
}

/// What is left of a text without white space at its end does not end in any.
pub proof fn lemma_trimmed_end(s: Seq<char>)
    ensures
        trimmed_end(s).len() > 0 ==> !is_space(trimmed_end(s).last()),
    decreases s.len(),
{
    if s.len() > 0 && is_space(s.last()) {
        lemma_trimmed_end(s.drop_last());
    }
}

/// Trimming a text that begins and ends in something else, with a line feed after
/// it, gives the text.
pub proof fn lemma_trimmed_line(s: Seq<char>)
    requires
        s.len() > 0,
        !is_space(s[0]),
        !is_space(s.last()),
    ensures
        trimmed(s + "\n"@) == s,
{
    reveal_strlit("\n");
    let t = s + "\n"@;
    assert(t[0] == s[0]);
    assert(t.last() == '\n');
    assert(t.drop_last() =~= s);
    assert(trimmed_end(t) == trimmed_end(s));
}

/// A joined list, seen from its front.
proof fn lemma_joined_front(list: Seq<Seq<char>>, sep: Seq<char>)
    requires
        list.len() >= 2,
    ensures
        joined(list, sep) == list[0] + (sep + joined(list.drop_first(), sep)),
    decreases list.len(),
{
    let rest = list.drop_first();
    assert(rest.last() == list.last());
    if list.len() == 2 {
        assert(list.drop_last()[0] == list[0]);
        assert(joined(list.drop_last(), sep) == list[0]);
        assert(joined(rest, sep) == list[1]);
        assert(joined(list, sep) =~= list[0] + (sep + list[1]));
    } else {
        let fewer = list.drop_last();
        lemma_joined_front(fewer, sep);
        assert(fewer.drop_first() =~= rest.drop_last());
        assert(joined(list, sep) =~= list[0] + (sep + joined(rest, sep)));
    }
}

/// A text whose first `c` comes after `k` characters.
pub proof fn lemma_before_is(s: Seq<char>, c: char, k: int)
    requires
        0 <= k <= s.len(),
        forall|i: int| 0 <= i < k ==> s[i] != c,
        k < s.len() ==> s[k] == c,
    ensures
        before(s, c) == k,
{
    lemma_before(s, c);
}

/// The lines of a text that was joined from lines are those lines.
proof fn lemma_lines_of_joined(list: Seq<Seq<char>>)
    requires
        list.len() > 0,
        forall|i: int| 0 <= i < list.len() ==> !(#[trigger] list[i]).contains('\n'),
        forall|i: int|
            0 <= i < list.len() && (#[trigger] list[i]).len() > 0 ==> list[i].last() != '\r',
        list.last().len() > 0,
    ensures
        lines_of(joined(list, "\n"@)) == list,
    decreases list.len(),
{
    reveal_strlit("\n");
    let s = joined(list, "\n"@);
    assert(!list[0].contains('\n'));
    assert forall|i: int| 0 <= i < list[0].len() implies list[0][i] != '\n' by {
        assert(list[0].contains(list[0][i]));
    }
    if list.len() == 1 {
        lemma_before_is(s, '\n', s.len() as int);
        assert(list =~= seq![list[0]]);
    } else {
        let rest = list.drop_first();
        lemma_joined_front(list, "\n"@);
        let k = list[0].len() as int;
        assert(s[k] == '\n');
        assert forall|i: int| 0 <= i < k implies s[i] != '\n' by {
            assert(s[i] == list[0][i]);
        }
        lemma_before_is(s, '\n', k);
        assert(s.take(k) =~= list[0]);
        assert(s.skip(k + 1) =~= joined(rest, "\n"@));
        assert forall|i: int| 0 <= i < rest.len() implies !(#[trigger] rest[i]).contains('\n') by {
            assert(rest[i] == list[i + 1]);
        }
        assert forall|i: int|
            0 <= i < rest.len() && (#[trigger] rest[i]).len() > 0 implies rest[i].last() != '\r' by {
            assert(rest[i] == list[i + 1]);
        }
        lemma_lines_of_joined(rest);
        assert(list =~= seq![list[0]] + rest);
    }
}

/// Values that were printed one per line are read back as they were. A value may
/// not hold a line feed or end in a carriage return; the first may not begin, and
/// the last may not end, in white space.
pub proof fn law_lines_read_back(list: Seq<Seq<char>>)
    requires
        list.len() > 0,
        forall|i: int| 0 <= i < list.len() ==> !(#[trigger] list[i]).contains('\n'),
        forall|i: int|
            0 <= i < list.len() && (#[trigger] list[i]).len() > 0 ==> list[i].last() != '\r',
        list[0].len() > 0 && !is_space(list[0][0]),
        list.last().len() > 0 && !is_space(list.last().last()),
    ensures
        lines_of(trimmed(joined(list, "\n"@) + "\n"@)) == list,
{
    let s = joined(list, "\n"@);
    if list.len() == 1 {
        assert(s == list[0]);
    } else {
        lemma_joined_front(list, "\n"@);
        assert(s[0] == list[0][0]);
        assert(s.last() == list.last().last());
    }
    lemma_trimmed_line(s);
    lemma_lines_of_joined(list);
}

/// The lines of two texts, of which the first is empty or ends in a line feed.
pub proof fn lemma_lines_add(s: Seq<char>, t: Seq<char>)
    requires
        s.len() == 0 || s.last() == '\n',
    ensures
        lines_of(s + t) == lines_of(s) + lines_of(t),
    decreases s.len(),
{
    if s.len() == 0 {
        assert(s + t =~= t);
        assert(lines_of(s) + lines_of(t) =~= lines_of(t));
    } else {
        let k = before(s, '\n');
        lemma_before(s, '\n');
        let all = s + t;
        if k >= s.len() {
            assert(s[s.len() - 1] != '\n');
        }
        assert forall|i: int| 0 <= i < k implies all[i] != '\n' by {
            assert(all[i] == s[i]);
        }
        assert(all[k] == s[k]);
        lemma_before_is(all, '\n', k);
        assert(all.take(k) =~= s.take(k));
        assert(all.skip(k + 1) =~= s.skip(k + 1) + t);
        lemma_lines_add(s.skip(k + 1), t);
        assert(lines_of(all) =~= lines_of(s) + lines_of(t));
    }
}

/// Ending the last line of a text makes no difference to its lines.
pub proof fn lemma_lines_ended(s: Seq<char>)
    requires
        s.len() > 0,
        s.last() != '\n',
        s.last() != '\r',
    ensures
        lines_of(s + "\n"@) == lines_of(s),
    decreases s.len(),
{
    reveal_strlit("\n");
    let all = s + "\n"@;
    let k = before(s, '\n');
    lemma_before(s, '\n');
    assert forall|i: int| 0 <= i < k implies all[i] != '\n' by {
        assert(all[i] == s[i]);
    }
    if k < s.len() {
        assert(all[k] == s[k]);
    }
    lemma_before_is(all, '\n', k);
    assert(all.take(k) =~= s.take(k));
    if k < s.len() {
        assert(all.skip(k + 1) =~= s.skip(k + 1) + "\n"@);
        if s.skip(k + 1).len() == 0 {
            assert(s.last() == s[k]);
        }
        lemma_lines_ended(s.skip(k + 1));
    } else {
        assert(s.take(k) =~= s);
        assert(lines_of(all.skip(k + 1)).len() == 0);
        assert(lines_of(all) =~= seq![s]);
    }
}

/// A single line.
pub proof fn lemma_one_line(line: Seq<char>)
    requires
        !line.contains('\n'),
        line.len() > 0 ==> line.last() != '\r',
    ensures
        lines_of(line + "\n"@) == seq![line],
{
    reveal_strlit("\n");
    let s = line + "\n"@;
    assert forall|i: int| 0 <= i < line.len() implies s[i] != '\n' by {
        assert(line.contains(line[i]));
    }
    lemma_before_is(s, '\n', line.len() as int);
    assert(s.take(line.len() as int) =~= line);
    assert(lines_of(s.skip(line.len() as int + 1)).len() == 0);
    assert(lines_of(s) =~= seq![line]);
}

} // verus!
