//! What holds of text: how it is split, trimmed, joined and replaced.
use crate::text::{
    before, before_space, begins, concat, holds, is_space, joined, lemma_before, lemma_before_is,
    lines_of, replaced, split_at_char, stripped, trimmed, trimmed_end, trimmed_start, words_of,
};
use vstd::prelude::*;

verus! {

/// Whether a text is nothing but white space.
pub open spec fn is_blank(s: Seq<char>) -> bool {
    forall|i: int| 0 <= i < s.len() ==> is_space(#[trigger] s[i])
}

/// The blank, the tab, the line feed, the carriage return and the wide blank are white
/// space; no letter, digit or sign of ASCII is.
pub proof fn law_space(c: char)
    ensures
        is_space(' ') && is_space('\t') && is_space('\n') && is_space('\r') && is_space('\u{a0}')
            && is_space('\u{2003}') && is_space('\u{2028}') && is_space('\u{3000}'),
        '!' <= c <= '~' ==> !is_space(c),
{
}

/// Trimming the front of a text takes off white space alone, and all of it.
pub proof fn law_trimmed_start(s: Seq<char>) -> (front: Seq<char>)
    ensures
        s == front + trimmed_start(s),
        is_blank(front),
        trimmed_start(s).len() > 0 ==> !is_space(trimmed_start(s)[0]),
    decreases s.len(),
{
    if s.len() > 0 && is_space(s[0]) {
        let rest = law_trimmed_start(s.drop_first());
        let front = seq![s[0]] + rest;
        let t = trimmed_start(s);
        assert(s =~= seq![s[0]] + s.drop_first());
        assert(s.drop_first() == rest + t);
        assert(seq![s[0]] + (rest + t) =~= front + t);
        front
    } else {
        assert(s =~= Seq::<char>::empty() + s);
        seq![]
    }
}

/// Trimming the end of a text takes off white space alone, and all of it.
pub proof fn law_trimmed_end(s: Seq<char>) -> (back: Seq<char>)
    ensures
        s == trimmed_end(s) + back,
        is_blank(back),
        trimmed_end(s).len() > 0 ==> !is_space(trimmed_end(s).last()),
    decreases s.len(),
{
    if s.len() > 0 && is_space(s.last()) {
        let rest = law_trimmed_end(s.drop_last());
        let back = rest.push(s.last());
        let t = trimmed_end(s);
        assert(s =~= s.drop_last().push(s.last()));
        assert(s.drop_last() == t + rest);
        assert((t + rest).push(s.last()) =~= t + back);
        back
    } else {
        assert(s =~= s + Seq::<char>::empty());
        seq![]
    }
}

/// Trimming a text takes off the white space at either end, and nothing else.
pub proof fn law_trimmed(s: Seq<char>) -> (ends: (Seq<char>, Seq<char>))
    ensures
        s == ends.0 + trimmed(s) + ends.1,
        is_blank(ends.0),
        is_blank(ends.1),
        trimmed(s).len() > 0 ==> !is_space(trimmed(s)[0]) && !is_space(trimmed(s).last()),
{
    let front = law_trimmed_start(s);
    let t = trimmed_start(s);
    let back = law_trimmed_end(t);
    assert(s =~= front + trimmed(s) + back);
    if trimmed(s).len() > 0 {
        assert(trimmed(s)[0] == t[0]);
    }
    (front, back)
}

/// A text is the parts that it is split into, with the character between them; none of the
/// parts holds it.
pub proof fn law_split(s: Seq<char>, c: char)
    ensures
        joined(split_at_char(s, c), seq![c]) == s,
        split_at_char(s, c).len() > 0,
        forall|i: int|
            0 <= i < split_at_char(s, c).len() ==> !(#[trigger] split_at_char(s, c)[i]).contains(c),
    decreases s.len(),
{
    lemma_before(s, c);
    let k = before(s, c);
    let all = split_at_char(s, c);
    if k < s.len() {
        let rest = split_at_char(s.skip(k + 1), c);
        law_split(s.skip(k + 1), c);
        lemma_joined_before(s.take(k), rest, seq![c]);
        assert(s =~= s.take(k) + seq![c] + s.skip(k + 1));
        assert(!s.take(k).contains(c));
        assert forall|i: int| 0 <= i < all.len() implies !(#[trigger] all[i]).contains(c) by {
            if i > 0 {
                assert(all[i] == rest[i - 1]);
            }
        }
    } else {
        assert(all[0] == s);
        assert(!s.contains(c));
    }
}

/// A list with one more text at its front, joined.
proof fn lemma_joined_before(first: Seq<char>, rest: Seq<Seq<char>>, sep: Seq<char>)
    requires
        rest.len() > 0,
    ensures
        joined(seq![first] + rest, sep) == first + sep + joined(rest, sep),
    decreases rest.len(),
{
    let all = seq![first] + rest;
    assert(all.last() == rest.last());
    if rest.len() == 1 {
        assert(all.drop_last() =~= seq![first]);
        assert(joined(all.drop_last(), sep) == first);
        assert(joined(rest, sep) == rest[0]);
    } else {
        assert(all.drop_last() =~= seq![first] + rest.drop_last());
        lemma_joined_before(first, rest.drop_last(), sep);
        assert(joined(all, sep) =~= first + sep + joined(rest, sep));
    }
}

/// Joining puts the separator between the texts of a list, and nothing else.
pub proof fn law_joined(list: Seq<Seq<char>>, more: Seq<char>, sep: Seq<char>)
    ensures
        joined(Seq::<Seq<char>>::empty(), sep) == Seq::<char>::empty(),
        joined(seq![more], sep) == more,
        list.len() > 0 ==> joined(list.push(more), sep) == joined(list, sep) + sep + more,
{
    assert(list.push(more).drop_last() =~= list);
}

/// Texts one after another are those of either part of the list.
pub proof fn law_concat<A>(a: Seq<Seq<A>>, b: Seq<Seq<A>>, one: Seq<A>)
    ensures
        concat(Seq::<Seq<A>>::empty()) == Seq::<A>::empty(),
        concat(seq![one]) == one,
        concat(a + b) == concat(a) + concat(b),
    decreases b.len(),
{
    let single = seq![one];
    assert(single.drop_last() =~= seq![]);
    assert(concat(single.drop_last()) =~= seq![]);
    assert(concat(single) =~= one);
    if b.len() == 0 {
        assert(a + b =~= a);
        assert(concat(a) + concat(b) =~= concat(a));
    } else {
        assert((a + b).drop_last() =~= a + b.drop_last());
        assert((a + b).last() == b.last());
        law_concat(a, b.drop_last(), one);
        assert(concat(a + b) =~= concat(a) + concat(b));
    }
}

/// What a filter leaves of a list.
pub proof fn lemma_filter_has<A>(list: Seq<A>, keep: spec_fn(A) -> bool, x: A)
    ensures
        list.filter(keep).contains(x) <==> list.contains(x) && keep(x),
    decreases list.len(),
{
    reveal(Seq::filter);
    if list.len() > 0 {
        let fewer = list.drop_last();
        let n = list.len() - 1;
        lemma_filter_has(fewer, keep, x);
        let r = list.filter(keep);
        let q = fewer.filter(keep);
        if r.contains(x) {
            let i = choose|i: int| 0 <= i < r.len() && r[i] == x;
            if i < q.len() {
                assert(q[i] == x);
                let j = choose|j: int| 0 <= j < fewer.len() && fewer[j] == x;
                assert(list[j] == x);
            } else {
                assert(list[n] == x);
            }
        }
        if list.contains(x) && keep(x) {
            let j = choose|j: int| 0 <= j < list.len() && list[j] == x;
            if j < n {
                assert(fewer[j] == x);
                let i = choose|i: int| 0 <= i < q.len() && q[i] == x;
                assert(r[i] == x);
            } else {
                assert(r[q.len() as int] == x);
            }
        }
    }
}

/// A text begins with another where it is that, with something behind it.
pub proof fn law_begins(s: Seq<char>, p: Seq<char>)
    ensures
        begins(s, p) <==> exists|t: Seq<char>| s == #[trigger] (p + t),
{
    if begins(s, p) {
        assert(s =~= p + s.skip(p.len() as int));
    }
    if exists|t: Seq<char>| s == #[trigger] (p + t) {
        let t = choose|t: Seq<char>| s == #[trigger] (p + t);
        assert(s.take(p.len() as int) =~= p);
    }
}

/// A text holds another where it is that, with something on either side.
pub proof fn law_holds(s: Seq<char>, p: Seq<char>)
    ensures
        holds(s, p) <==> exists|a: Seq<char>, b: Seq<char>| s == #[trigger] (a + p + b),
{
    if holds(s, p) {
        let i = choose|i: int| 0 <= i <= s.len() && #[trigger] begins(s.skip(i), p);
        let a = s.take(i);
        let b = s.skip(i).skip(p.len() as int);
        assert(s =~= a + s.skip(i));
        assert(s.skip(i) =~= p + b);
        assert(s =~= a + p + b);
    }
    if exists|a: Seq<char>, b: Seq<char>| s == #[trigger] (a + p + b) {
        let (a, b) = choose|a: Seq<char>, b: Seq<char>| s == #[trigger] (a + p + b);
        let i = a.len() as int;
        assert(s.skip(i) =~= p + b);
        assert(s.skip(i).take(p.len() as int) =~= p);
        assert(begins(s.skip(i), p));
    }
}

/// The first place where a text stands is replaced, and so is every later one: what comes
/// before stays, and what comes behind is seen by itself.
pub proof fn law_replaced(a: Seq<char>, from: Seq<char>, b: Seq<char>, to: Seq<char>)
    requires
        from.len() > 0,
        forall|i: int| 0 <= i < a.len() ==> !begins(#[trigger] (a + from + b).skip(i), from),
    ensures
        replaced(a + from + b, from, to) == a + to + replaced(b, from, to),
    decreases a.len(),
{
    let s = a + from + b;
    if a.len() == 0 {
        assert(s =~= from + b);
        assert(s.take(from.len() as int) =~= from);
        assert(s.skip(from.len() as int) =~= b);
        assert(a + to + replaced(b, from, to) =~= to + replaced(b, from, to));
    } else {
        let rest = a.drop_first();
        assert(s.skip(0) =~= s);
        assert(!begins(s.skip(0), from));
        assert(s.drop_first() =~= rest + from + b);
        assert forall|i: int| 0 <= i < rest.len() implies !begins(
            #[trigger] (rest + from + b).skip(i),
            from,
        ) by {
            assert((rest + from + b).skip(i) =~= s.skip(i + 1));
        }
        law_replaced(rest, from, b, to);
        assert(replaced(s, from, to) =~= a + to + replaced(b, from, to));
    }
}

/// Where a text does not stand, replacing it changes nothing.
pub proof fn law_replaced_nowhere(s: Seq<char>, from: Seq<char>, to: Seq<char>)
    requires
        from.len() > 0,
        !holds(s, from),
    ensures
        replaced(s, from, to) == s,
    decreases s.len(),
{
    if s.len() > 0 {
        assert(s.skip(0) =~= s);
        assert(!begins(s.skip(0), from));
        let t = s.drop_first();
        assert forall|i: int| 0 <= i <= t.len() implies !#[trigger] begins(t.skip(i), from) by {
            assert(t.skip(i) =~= s.skip(i + 1));
            assert(!begins(s.skip(i + 1), from));
        }
        law_replaced_nowhere(t, from, to);
        assert(seq![s[0]] + t =~= s);
    }
}

/// A text, so many times.
pub open spec fn times(p: Seq<char>, n: nat) -> Seq<char>
    decreases n,
{
    if n == 0 {
        seq![]
    } else {
        p + times(p, (n - 1) as nat)
    }
}

/// Stripping a beginning takes it off as often as it stands there.
pub proof fn law_stripped(s: Seq<char>, p: Seq<char>) -> (n: nat)
    requires
        p.len() > 0,
    ensures
        s == times(p, n) + stripped(s, p),
        !begins(stripped(s, p), p),
    decreases s.len(),
{
    if begins(s, p) {
        let m = law_stripped(s.skip(p.len() as int), p);
        let n = (m + 1) as nat;
        assert(s =~= p + s.skip(p.len() as int));
        assert(times(p, n) == p + times(p, m));
        assert(s =~= times(p, n) + stripped(s, p));
        n
    } else {
        assert(s =~= times(p, 0) + s);
        0
    }
}

/// What is left of a text in front of which another stands so many times.
pub proof fn law_stripped_of(p: Seq<char>, n: nat, t: Seq<char>)
    requires
        p.len() > 0,
        !begins(t, p),
    ensures
        stripped(times(p, n) + t, p) == t,
    decreases n,
{
    let s = times(p, n) + t;
    if n == 0 {
        assert(s =~= t);
    } else {
        let m = (n - 1) as nat;
        assert(s =~= p + (times(p, m) + t));
        assert(s.take(p.len() as int) =~= p);
        assert(s.skip(p.len() as int) =~= times(p, m) + t);
        law_stripped_of(p, m, t);
    }
}

/// A text is split into lines at its line feeds. A carriage return before one belongs to
/// it, and what stands behind the last is a line where it is not empty.
pub proof fn law_lines(line: Seq<char>, rest: Seq<char>)
    requires
        !line.contains('\n'),
    ensures
        lines_of(Seq::<char>::empty()) == Seq::<Seq<char>>::empty(),
        line.len() > 0 ==> lines_of(line) == seq![line],
        lines_of(line + seq!['\n'] + rest) == seq![
            if line.len() > 0 && line.last() == '\r' {
                line.drop_last()
            } else {
                line
            },
        ] + lines_of(rest),
{
    let s = line + seq!['\n'] + rest;
    let k = line.len() as int;
    assert forall|i: int| 0 <= i < line.len() implies line[i] != '\n' by {
        assert(line.contains(line[i]));
    }
    lemma_before_is(line, '\n', k);
    assert forall|i: int| 0 <= i < k implies s[i] != '\n' by {
        assert(s[i] == line[i]);
    }
    assert(s[k] == '\n');
    lemma_before_is(s, '\n', k);
    assert(s.take(k) =~= line);
    assert(s.skip(k + 1) =~= rest);
}

/// White space in front of a text makes no difference to its words.
pub proof fn law_words_after_space(c: char, s: Seq<char>)
    requires
        is_space(c),
    ensures
        words_of(seq![c] + s) == words_of(s),
        words_of(Seq::<char>::empty()) == Seq::<Seq<char>>::empty(),
{
    assert((seq![c] + s).drop_first() =~= s);
    assert(trimmed_start(seq![c] + s) == trimmed_start(s));
}

/// A word is a run of characters that are no white space: it ends where white space, or
/// the text, does.
pub proof fn law_words(word: Seq<char>, s: Seq<char>)
    requires
        word.len() > 0,
        forall|i: int| 0 <= i < word.len() ==> !is_space(#[trigger] word[i]),
        s.len() > 0 ==> is_space(s[0]),
    ensures
        words_of(word + s) == seq![word] + words_of(s),
{
    let t = word + s;
    assert(t[0] == word[0]);
    assert(trimmed_start(t) == t);
    lemma_run(word, s);
    assert(t.take(word.len() as int) =~= word);
    assert(t.skip(word.len() as int) =~= s);
}

/// Where the first white space stands.
proof fn lemma_run(word: Seq<char>, s: Seq<char>)
    requires
        forall|i: int| 0 <= i < word.len() ==> !is_space(#[trigger] word[i]),
        s.len() > 0 ==> is_space(s[0]),
    ensures
        before_space(word + s) == word.len(),
    decreases word.len(),
{
    let t = word + s;
    if word.len() == 0 {
        assert(t =~= s);
    } else {
        let rest = word.drop_first();
        assert(!is_space(word[0]));
        assert(t[0] == word[0]);
        assert(t.drop_first() =~= rest + s);
        assert forall|i: int| 0 <= i < rest.len() implies !is_space(#[trigger] rest[i]) by {
            assert(rest[i] == word[i + 1]);
        }
        lemma_run(rest, s);
    }
}

} // verus!
