//! Orders on texts: character by character, and the order of paths, in which
//! names are compared one after the other.
use crate::text::{chars, same, texts};
use vstd::prelude::*;
use vstd::relations::{
    antisymmetric, reflexive, sorted_by, strongly_connected, total_ordering, transitive,
};

verus! {

/// Which order is meant: that of texts, or that of paths, where a name ends before
/// every longer one, so that separators come before all other characters.
#[derive(Clone, Copy, PartialEq, Eq, Structural, Debug)]
pub enum Order {
    /// Characters by their code points.
    Text,
    /// Names, separated by `/`, one after the other, each by its code points.
    Path,
    /// Names, separated by `/` or `\`, one after the other, each by its code points.
    Windows,
}

/// The order of paths.
pub open spec fn path_order(windows: bool) -> Order {
    if windows {
        Order::Windows
    } else {
        Order::Path
    }
}

/// The order of paths.
pub fn paths_order(windows: bool) -> (r: Order)
    ensures
        r == path_order(windows),
{
    if windows {
        Order::Windows
    } else {
        Order::Path
    }
}

/// Whether the character `a` comes before the character `b`.
pub open spec fn lower(order: Order, a: char, b: char) -> bool {
    if order != Order::Text && (a == '/' || b == '/') {
        a == '/' && b != '/'
    } else if order == Order::Windows && (a == '\\' || b == '\\') {
        a == '\\' && b != '\\'
    } else {
        a < b
    }
}

/// Whether `a` comes strictly before `b`.
pub open spec fn precedes(order: Order, a: Seq<char>, b: Seq<char>) -> bool
    decreases a.len(),
{
    b.len() > 0 && (a.len() == 0 || lower(order, a[0], b[0]) || (a[0] == b[0]
        && precedes(order, a.drop_first(), b.drop_first())))
}

/// Whether `a` comes before `b` or is `b`.
pub open spec fn up_to(order: Order) -> spec_fn(Seq<char>, Seq<char>) -> bool {
    |a: Seq<char>, b: Seq<char>| a == b || precedes(order, a, b)
}

/// No text comes before itself.
pub proof fn lemma_irreflexive(order: Order, a: Seq<char>)
    ensures
        !precedes(order, a, a),
    decreases a.len(),
{
    if a.len() > 0 {
        lemma_irreflexive(order, a.drop_first());
    }
}

/// What comes before what comes before a text comes before it.
pub proof fn lemma_transitive(order: Order, a: Seq<char>, b: Seq<char>, c: Seq<char>)
    requires
        precedes(order, a, b),
        precedes(order, b, c),
    ensures
        precedes(order, a, c),
    decreases a.len(),
{
    if a.len() > 0 && a[0] == b[0] && b[0] == c[0] {
        if precedes(order, a.drop_first(), b.drop_first()) && precedes(
            order,
            b.drop_first(),
            c.drop_first(),
        ) {
            lemma_transitive(order, a.drop_first(), b.drop_first(), c.drop_first());
        }
    }
}

/// Of two texts that differ, one comes before the other.
pub proof fn lemma_connected(order: Order, a: Seq<char>, b: Seq<char>)
    ensures
        a == b || precedes(order, a, b) || precedes(order, b, a),
    decreases a.len(),
{
    if a.len() == 0 {
        if b.len() == 0 {
            assert(a == b);
        }
    } else if b.len() > 0 && a[0] == b[0] {
        lemma_connected(order, a.drop_first(), b.drop_first());
        if a.drop_first() == b.drop_first() {
            assert(a == seq![a[0]] + a.drop_first());
            assert(b == seq![b[0]] + b.drop_first());
        }
    }
}

/// Each of the two orders is total.
pub proof fn lemma_total(order: Order)
    ensures
        total_ordering(up_to(order)),
{
    let le = up_to(order);
    assert forall|a: Seq<char>, b: Seq<char>| #[trigger] le(a, b) && #[trigger] le(b, a) implies a
        == b by {
        if a != b {
            lemma_transitive(order, a, b, a);
            lemma_irreflexive(order, a);
        }
    }
    assert forall|a: Seq<char>, b: Seq<char>, c: Seq<char>| #[trigger]
        le(a, b) && #[trigger] le(b, c) implies le(a, c) by {
        if a != b && b != c {
            lemma_transitive(order, a, b, c);
        }
    }
    assert forall|a: Seq<char>, b: Seq<char>| #[trigger] le(a, b) || #[trigger] le(b, a) by {
        lemma_connected(order, a, b);
    }
    assert(reflexive(le));
    assert(antisymmetric(le));
    assert(transitive(le));
    assert(strongly_connected(le));
}

/// Whether `a` comes before `b` in the order of characters.
fn comes_lower(order: Order, a: char, b: char) -> (r: bool)
    ensures
        r == lower(order, a, b),
{
    match order {
        Order::Text => a < b,
        Order::Path => if a == '/' || b == '/' {
            a == '/' && b != '/'
        } else {
            a < b
        },
        Order::Windows => if a == '/' || b == '/' {
            a == '/' && b != '/'
        } else if a == '\\' || b == '\\' {
            a == '\\' && b != '\\'
        } else {
            a < b
        },
    }
}

/// Whether `a` comes strictly before `b`.
pub fn comes_before(order: Order, a: &str, b: &str) -> (r: bool)
    ensures
        r == precedes(order, a@, b@),
{
    let v = chars(a);
    let w = chars(b);
    let mut i: usize = 0;
    assert(v@.skip(0) == v@);
    assert(w@.skip(0) == w@);
    while i < v.len() && i < w.len() && v[i] == w[i]
        invariant
            i <= v@.len(),
            i <= w@.len(),
            v@ == a@,
            w@ == b@,
            precedes(order, a@, b@) == precedes(order, v@.skip(i as int), w@.skip(i as int)),
        decreases v@.len() - i,
    {
        assert(v@.skip(i as int).drop_first() == v@.skip(i + 1));
        assert(w@.skip(i as int).drop_first() == w@.skip(i + 1));
        i = i + 1;
    }
    if i >= w.len() {
        false
    } else if i >= v.len() {
        true
    } else {
        comes_lower(order, v[i], w[i])
    }
}

/// The texts of `list`, in order.
pub open spec fn sorted(order: Order, list: Seq<Seq<char>>) -> Seq<Seq<char>> {
    list.sort_by(up_to(order))
}

/// `list`, brought into order.
pub fn sort(order: Order, list: Vec<String>) -> (r: Vec<String>)
    ensures
        texts(r@) == sorted(order, texts(list@)),
{
    let mut out: Vec<String> = Vec::new();
    let ghost all = texts(list@);
    let mut i: usize = 0;
    proof {
        lemma_total(order);
        assert(texts(out@) =~= all.take(0));
    }
    while i < list.len()
        invariant
            i <= list@.len(),
            all == texts(list@),
            total_ordering(up_to(order)),
            texts(out@).to_multiset() == all.take(i as int).to_multiset(),
            sorted_by(texts(out@), up_to(order)),
        decreases list@.len() - i,
    {
        let mut k: usize = 0;
        while k < out.len() && !comes_before(order, list[i].as_str(), out[k].as_str())
            invariant
                i < list@.len(),
                k <= out@.len(),
                total_ordering(up_to(order)),
                forall|j: int|
                    0 <= j < k ==> #[trigger] up_to(order)(texts(out@)[j], list@[i as int]@),
            decreases out@.len() - k,
        {
            proof {
                lemma_connected(order, out@[k as int]@, list@[i as int]@);
            }
            k = k + 1;
        }
        let ghost seen = texts(out@);
        let ghost x = all[i as int];
        out.insert(k, list[i].clone());
        proof {
            broadcast use vstd::seq_lib::group_to_multiset_ensures;

            let le = up_to(order);
            assert(texts(out@) =~= seen.insert(k as int, x));
            assert(all.take(i + 1) =~= all.take(i as int).push(x));
            assert(texts(out@).to_multiset() =~= seen.to_multiset().insert(x));
            assert(all.take(i + 1).to_multiset() =~= all.take(i as int).to_multiset().insert(x));
            assert forall|a: int, b: int| 0 <= a < b < texts(out@).len() implies #[trigger] le(
                texts(out@)[a],
                texts(out@)[b],
            ) by {
                if a < k && b == k {
                    assert(le(seen[a], x));
                } else if a == k {
                    assert(le(x, seen[k as int]));
                    if b - 1 > k {
                        assert(le(seen[k as int], seen[b - 1]));
                    }
                    assert(le(x, seen[b - 1]));
                } else if a < k && b > k {
                    assert(le(seen[a], seen[b - 1]));
                } else if a > k {
                    assert(le(seen[a - 1], seen[b - 1]));
                } else {
                    assert(le(seen[a], seen[b]));
                }
            }
        }
        i = i + 1;
    }
    proof {
        assert(all.take(i as int) =~= all);
        all.lemma_sort_by_ensures(up_to(order));
        vstd::seq_lib::lemma_sorted_unique(texts(out@), sorted(order, all), up_to(order));
    }
    out
}

/// Whether the texts of `list` stand in strict order, so that none occurs twice.
pub open spec fn increasing(list: Seq<Seq<char>>) -> bool {
    forall|i: int, j: int|
        0 <= i < j < list.len() ==> precedes(
            Order::Text,
            #[trigger] list[i],
            #[trigger] list[j],
        )
}

/// `list`, which stands in strict order, with `x` in its place.
pub open spec fn placed(list: Seq<Seq<char>>, x: Seq<char>) -> Seq<Seq<char>>
    decreases list.len(),
{
    if list.len() == 0 {
        seq![x]
    } else if list[0] == x {
        list
    } else if precedes(Order::Text, x, list[0]) {
        seq![x] + list
    } else {
        seq![list[0]] + placed(list.drop_first(), x)
    }
}

/// The texts of `list` in order, each of them once.
pub open spec fn distinct(list: Seq<Seq<char>>) -> Seq<Seq<char>>
    decreases list.len(),
{
    if list.len() == 0 {
        seq![]
    } else {
        placed(distinct(list.drop_last()), list.last())
    }
}

/// Placing a text adds it to those that are there, and keeps the order.
pub proof fn lemma_placed(list: Seq<Seq<char>>, x: Seq<char>)
    requires
        increasing(list),
    ensures
        increasing(placed(list, x)),
        forall|y: Seq<char>| #[trigger]
            placed(list, x).contains(y) <==> y == x || list.contains(y),
    decreases list.len(),
{
    let r = placed(list, x);
    if list.len() == 0 {
        assert(r[0] == x);
    } else if list[0] == x {
    } else if precedes(Order::Text, x, list[0]) {
        assert forall|i: int, j: int| 0 <= i < j < r.len() implies precedes(
            Order::Text,
            #[trigger] r[i],
            #[trigger] r[j],
        ) by {
            if i == 0 {
                assert(r[j] == list[j - 1]);
                if j > 1 {
                    lemma_transitive(Order::Text, x, list[0], list[j - 1]);
                }
            } else {
                assert(r[i] == list[i - 1] && r[j] == list[j - 1]);
            }
        }
        assert forall|y: Seq<char>| #[trigger] r.contains(y) <==> y == x || list.contains(y) by {
            if y == x {
                assert(r[0] == x);
            }
            if list.contains(y) {
                let i = choose|i: int| 0 <= i < list.len() && list[i] == y;
                assert(r[i + 1] == y);
            }
        }
    } else {
        let rest = list.drop_first();
        let tail = placed(rest, x);
        assert(increasing(rest));
        lemma_placed(rest, x);
        lemma_connected(Order::Text, list[0], x);
        assert forall|i: int, j: int| 0 <= i < j < r.len() implies precedes(
            Order::Text,
            #[trigger] r[i],
            #[trigger] r[j],
        ) by {
            assert(r[j] == tail[j - 1]);
            if i == 0 {
                assert(tail.contains(tail[j - 1]));
                if tail[j - 1] != x {
                    let k = choose|k: int| 0 <= k < rest.len() && rest[k] == tail[j - 1];
                    assert(list[k + 1] == tail[j - 1]);
                }
            } else {
                assert(r[i] == tail[i - 1]);
            }
        }
        assert forall|y: Seq<char>| #[trigger] r.contains(y) <==> y == x || list.contains(y) by {
            if r.contains(y) {
                let i = choose|i: int| 0 <= i < r.len() && r[i] == y;
                if i > 0 {
                    assert(tail[i - 1] == y);
                    assert(tail.contains(y));
                    if y != x {
                        let k = choose|k: int| 0 <= k < rest.len() && rest[k] == y;
                        assert(list[k + 1] == y);
                    }
                } else {
                    assert(list[0] == y);
                }
            }
            if list.contains(y) {
                let i = choose|i: int| 0 <= i < list.len() && list[i] == y;
                if i == 0 {
                    assert(r[0] == y);
                } else {
                    assert(rest[i - 1] == y);
                    assert(tail.contains(y));
                }
            }
            if tail.contains(y) {
                let k = choose|k: int| 0 <= k < tail.len() && tail[k] == y;
                assert(r[k + 1] == y);
            }
            if y == x {
                assert(tail.contains(x));
            }
        }
    }
}

/// What [`distinct`] lists are the texts of the list, in order and each once.
pub proof fn law_distinct(list: Seq<Seq<char>>)
    ensures
        increasing(distinct(list)),
        forall|y: Seq<char>| #[trigger] distinct(list).contains(y) <==> list.contains(y),
    decreases list.len(),
{
    if list.len() > 0 {
        let fewer = list.drop_last();
        law_distinct(fewer);
        lemma_placed(distinct(fewer), list.last());
        assert forall|y: Seq<char>| #[trigger] distinct(list).contains(y) <==> list.contains(y) by {
            if list.contains(y) {
                let i = choose|i: int| 0 <= i < list.len() && list[i] == y;
                if i < fewer.len() {
                    assert(fewer[i] == y);
                }
            }
            if fewer.contains(y) {
                let i = choose|i: int| 0 <= i < fewer.len() && fewer[i] == y;
                assert(list[i] == y);
            }
            if y == list.last() {
                assert(list[list.len() - 1] == y);
            }
            assert(distinct(fewer).contains(y) <==> fewer.contains(y));
        }
    }
}

/// Puts `x` into a list in strict order, unless it is there.
pub fn place(list: &mut Vec<String>, x: &str)
    ensures
        texts(final(list)@) == placed(texts(old(list)@), x@),
{
    let ghost all = texts(list@);
    let mut k: usize = 0;
    assert(all.skip(0) == all);
    assert(all.take(0) + placed(all, x@) =~= placed(all, x@));
    while k < list.len() && !same(list[k].as_str(), x) && !comes_before(
        Order::Text,
        x,
        list[k].as_str(),
    )
        invariant
            k <= list@.len(),
            list@ == old(list)@,
            all == texts(list@),
            placed(all, x@) == all.take(k as int) + placed(all.skip(k as int), x@),
        decreases list@.len() - k,
    {
        let ghost rest = all.skip(k as int);
        assert(rest.drop_first() == all.skip(k + 1));
        assert(all.take(k + 1) =~= all.take(k as int).push(rest[0]));
        assert(all.take(k as int) + (seq![rest[0]] + placed(rest.drop_first(), x@)) =~= all.take(
            k + 1,
        ) + placed(all.skip(k + 1), x@));
        k = k + 1;
    }
    let ghost rest = all.skip(k as int);
    assert(all.take(k as int) + rest =~= all);
    if k < list.len() && same(list[k].as_str(), x) {
        return;
    }
    list.insert(k, x.to_owned());
    assert(texts(list@) =~= all.insert(k as int, x@));
    assert(all.take(k as int) + (seq![x@] + rest) =~= all.insert(k as int, x@));
    assert(rest.len() == 0 ==> seq![x@] + rest =~= seq![x@]);
}

/// The texts of `list` in order, each of them once.
pub fn collect_distinct(list: &Vec<String>) -> (r: Vec<String>)
    ensures
        texts(r@) == distinct(texts(list@)),
{
    let ghost all = texts(list@);
    let mut out: Vec<String> = Vec::new();
    let mut i: usize = 0;
    assert(texts(out@) =~= distinct(all.take(0)));
    while i < list.len()
        invariant
            i <= list@.len(),
            all == texts(list@),
            texts(out@) == distinct(all.take(i as int)),
        decreases list@.len() - i,
    {
        place(&mut out, list[i].as_str());
        assert(all.take(i + 1).drop_last() =~= all.take(i as int));
        i = i + 1;
    }
    assert(all.take(i as int) =~= all);
    out
}

/// In what order the texts were found makes no difference to the sorted list.
pub proof fn law_sorted_is_canonical(order: Order, a: Seq<Seq<char>>, b: Seq<Seq<char>>)
    requires
        a.to_multiset() == b.to_multiset(),
    ensures
        sorted(order, a) == sorted(order, b),
{
    lemma_total(order);
    a.lemma_sort_by_ensures(up_to(order));
    b.lemma_sort_by_ensures(up_to(order));
    vstd::seq_lib::lemma_sorted_unique(sorted(order, a), sorted(order, b), up_to(order));
}

} // verus!
