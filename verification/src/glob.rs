//! A small glob matcher for repository-relative paths.
use vstd::prelude::*;
use vstd::string::StringSliceAdditionalSpecFns;

verus! {

/// Whether no byte of `t` is a `/`.
pub open spec fn one_name(t: Seq<u8>) -> bool {
    forall|i: int| 0 <= i < t.len() ==> t[i] != 0x2fu8
}

/// Whether the pattern `p` matches all of `t`:
/// `**` stands for any bytes, `*` for any bytes but `/`, `?` for one byte but
/// `/`, and every other byte for itself.
pub open spec fn glob(p: Seq<u8>, t: Seq<u8>) -> bool
    decreases p.len(),
{
    if p.len() == 0 {
        t.len() == 0
    } else if p.len() > 1 && p[0] == 0x2au8 && p[1] == 0x2au8 {
        exists|k: int| 0 <= k <= t.len() && glob(p.skip(2), #[trigger] t.skip(k))
    } else if p[0] == 0x2au8 {
        exists|k: int|
            0 <= k <= t.len() && one_name(t.take(k)) && glob(p.skip(1), #[trigger] t.skip(k))
    } else if p[0] == 0x3fu8 {
        t.len() > 0 && t[0] != 0x2fu8 && glob(p.skip(1), t.skip(1))
    } else {
        t.len() > 0 && t[0] == p[0] && glob(p.skip(1), t.skip(1))
    }
}

/// Whether `p[i..]` matches `t[j..]`.
fn glob_from(p: &[u8], i: usize, t: &[u8], j: usize) -> (r: bool)
    requires
        i <= p@.len(),
        j <= t@.len(),
    ensures
        r == glob(p@.skip(i as int), t@.skip(j as int)),
    decreases p@.len() - i,
{
    let ghost ps = p@.skip(i as int);
    let ghost ts = t@.skip(j as int);
    let n: usize = p.len();
    if i >= p.len() {
        return j >= t.len();
    }
    if p.len() - i > 1 && p[i] == 0x2a && p[i + 1] == 0x2a {
        assert(ps.skip(2) == p@.skip(i + 2));
        let mut k: usize = j;
        loop
            invariant
                i + 2 <= p@.len() == n,
                ps == p@.skip(i as int),
                ts == t@.skip(j as int),
                ps[0] == 0x2au8,
                ps[1] == 0x2au8,
                ps.skip(2) == p@.skip(i + 2),
                j <= k <= t@.len(),
                forall|x: int| 0 <= x < k - j ==> !glob(ps.skip(2), #[trigger] ts.skip(x)),
            decreases t@.len() - k,
        {
            assert(ts.skip(k - j) == t@.skip(k as int));
            if glob_from(p, i + 2, t, k) {
                return true;
            }
            if k >= t.len() {
                return false;
            }
            k = k + 1;
        }
    }
    if p[i] == 0x2a {
        assert(ps.skip(1) == p@.skip(i + 1));
        let mut k: usize = j;
        loop
            invariant
                i < p@.len() == n,
                ps == p@.skip(i as int),
                ts == t@.skip(j as int),
                ps[0] == 0x2au8,
                !(ps.len() > 1 && ps[1] == 0x2au8),
                ps.skip(1) == p@.skip(i + 1),
                j <= k <= t@.len(),
                one_name(ts.take(k - j)),
                forall|x: int| 0 <= x < k - j ==> !glob(ps.skip(1), #[trigger] ts.skip(x)),
            decreases t@.len() - k,
        {
            assert(ts.skip(k - j) == t@.skip(k as int));
            if glob_from(p, i + 1, t, k) {
                return true;
            }
            if k >= t.len() || t[k] == 0x2f {
                assert forall|x: int|
                    0 <= x <= ts.len() && one_name(ts.take(x)) implies !glob(
                    ps.skip(1),
                    #[trigger] ts.skip(x),
                ) by {
                    if x > k - j {
                        assert(ts.take(x)[k - j] == 0x2fu8);
                    }
                }
                return false;
            }
            k = k + 1;
        }
    }
    if j >= t.len() {
        return false;
    }
    assert(ps.skip(1) == p@.skip(i + 1));
    assert(ts.skip(1) == t@.skip(j + 1));
    if p[i] == 0x3f {
        t[j] != 0x2f && glob_from(p, i + 1, t, j + 1)
    } else {
        t[j] == p[i] && glob_from(p, i + 1, t, j + 1)
    }
}

/// Minimal glob matcher, of the whole of a repository-relative path:
///   `*`  matches any run of characters except `/`,
///   `**` matches any run of characters including `/`,
///   `?`  matches exactly one character (not `/`),
/// and everything else is literal. It works on the bytes of the two texts, so a
/// character outside ASCII counts as the bytes of its encoding.
pub fn glob_match(pattern: &str, text: &str) -> (r: bool)
    ensures
        r == glob(pattern.spec_bytes(), text.spec_bytes()),
{
    let p = pattern.as_bytes();
    let t = text.as_bytes();
    assert(p@.skip(0) == p@);
    assert(t@.skip(0) == t@);
    glob_from(p, 0, t, 0)
}

/// Whether `p` holds no wildcard.
pub open spec fn literal(p: Seq<u8>) -> bool {
    forall|i: int| 0 <= i < p.len() ==> p[i] != 0x2au8 && p[i] != 0x3fu8
}

/// A literal beginning of a pattern matches itself and nothing else.
pub proof fn law_literal_beginning(lit: Seq<u8>, p: Seq<u8>, t: Seq<u8>)
    requires
        literal(lit),
    ensures
        glob(lit + p, t) <==> lit.len() <= t.len() && t.take(lit.len() as int) == lit && glob(
            p,
            t.skip(lit.len() as int),
        ),
    decreases lit.len(),
{
    let n = lit.len() as int;
    if n == 0 {
        assert(lit + p =~= p);
        assert(t.skip(0) =~= t);
        assert(t.take(0) =~= lit);
    } else {
        assert((lit + p).skip(1) =~= lit.skip(1) + p);
        assert((lit + p)[0] == lit[0]);
        if t.len() > 0 {
            law_literal_beginning(lit.skip(1), p, t.skip(1));
            if n <= t.len() {
                assert(t.skip(1).skip(n - 1) =~= t.skip(n));
                assert(t.skip(1).take(n - 1) =~= t.take(n).skip(1));
                if t[0] == lit[0] && t.skip(1).take(n - 1) == lit.skip(1) {
                    assert(t.take(n) =~= seq![t[0]] + t.take(n).skip(1));
                    assert(lit =~= seq![lit[0]] + lit.skip(1));
                }
                if t.take(n) == lit {
                    assert(t.take(n)[0] == t[0]);
                }
            }
        }
    }
}

/// A pattern without wildcards matches itself and nothing else.
pub proof fn law_literal(p: Seq<u8>, t: Seq<u8>)
    requires
        literal(p),
    ensures
        glob(p, t) <==> p == t,
{
    let none = Seq::<u8>::empty();
    law_literal_beginning(p, none, t);
    assert(p + none =~= p);
    if p.len() <= t.len() && t.skip(p.len() as int).len() == 0 {
        assert(t.take(p.len() as int) =~= t);
    }
}

/// `**` matches every path.
pub proof fn law_double_star(t: Seq<u8>)
    ensures
        glob(seq![0x2au8, 0x2au8], t),
{
    let p = seq![0x2au8, 0x2au8];
    assert(p.skip(2).len() == 0);
    assert(glob(p.skip(2), t.skip(t.len() as int)));
}

/// `*` before a literal ending, as in `*.rs`, matches the paths that end so and
/// have no `/` before the ending.
pub proof fn law_star(p: Seq<u8>, t: Seq<u8>)
    requires
        literal(p),
    ensures
        glob(seq![0x2au8] + p, t) <==> p.len() <= t.len() && t.skip(t.len() - p.len()) == p
            && one_name(t.take(t.len() - p.len())),
{
    let q = seq![0x2au8] + p;
    let n = t.len() - p.len();
    assert(q.skip(1) =~= p);
    if q.len() > 1 {
        assert(q[1] == p[0]);
    }
    if glob(q, t) {
        let k = choose|k: int|
            0 <= k <= t.len() && one_name(t.take(k)) && glob(q.skip(1), #[trigger] t.skip(k));
        law_literal(p, t.skip(k));
    }
    if p.len() <= t.len() && t.skip(n) == p && one_name(t.take(n)) {
        law_literal(p, t.skip(n));
        assert(glob(q.skip(1), t.skip(n)));
    }
}

/// `**` before a literal ending matches the paths that end so, however many
/// directories come before.
pub proof fn law_double_star_ending(p: Seq<u8>, t: Seq<u8>)
    requires
        literal(p),
    ensures
        glob(seq![0x2au8, 0x2au8] + p, t) <==> p.len() <= t.len() && t.skip(t.len() - p.len())
            == p,
{
    let q = seq![0x2au8, 0x2au8] + p;
    let n = t.len() - p.len();
    assert(q.skip(2) =~= p);
    if glob(q, t) {
        let k = choose|k: int| 0 <= k <= t.len() && glob(q.skip(2), #[trigger] t.skip(k));
        law_literal(p, t.skip(k));
    }
    if p.len() <= t.len() && t.skip(n) == p {
        law_literal(p, t.skip(n));
        assert(glob(q.skip(2), t.skip(n)));
    }
}

/// `?` matches exactly one byte, and not `/`.
pub proof fn law_question_mark(t: Seq<u8>)
    ensures
        glob(seq![0x3fu8], t) <==> t.len() == 1 && t[0] != 0x2fu8,
{
    reveal_with_fuel(glob, 2);
    assert(seq![0x3fu8].skip(1).len() == 0);
}

/// The empty pattern matches the empty text, and nothing else.
pub proof fn law_empty_pattern(t: Seq<u8>)
    ensures
        glob(Seq::<u8>::empty(), t) <==> t.len() == 0,
{
}

/// `*`, before any pattern that begins otherwise, matches a part without `/`: what comes
/// after that part is matched by the pattern.
pub proof fn law_star_before(p: Seq<u8>, t: Seq<u8>)
    requires
        p.len() > 0 ==> p[0] != 0x2au8,
    ensures
        glob(seq![0x2au8] + p, t) <==> exists|k: int|
            0 <= k <= t.len() && (forall|i: int| 0 <= i < k ==> t[i] != 0x2fu8) && glob(
                p,
                #[trigger] t.skip(k),
            ),
{
    let q = seq![0x2au8] + p;
    assert(q.skip(1) =~= p);
    assert(q[0] == 0x2au8);
    if q.len() > 1 {
        assert(q[1] == p[0]);
    }
    if glob(q, t) {
        let k = choose|k: int|
            0 <= k <= t.len() && one_name(t.take(k)) && glob(q.skip(1), #[trigger] t.skip(k));
        assert forall|i: int| 0 <= i < k implies t[i] != 0x2fu8 by {
            assert(t.take(k)[i] == t[i]);
        }
        assert(glob(p, t.skip(k)));
    }
    if exists|k: int|
        0 <= k <= t.len() && (forall|i: int| 0 <= i < k ==> t[i] != 0x2fu8) && glob(
            p,
            #[trigger] t.skip(k),
        ) {
        let k = choose|k: int|
            0 <= k <= t.len() && (forall|i: int| 0 <= i < k ==> t[i] != 0x2fu8) && glob(
                p,
                #[trigger] t.skip(k),
            );
        assert(one_name(t.take(k)));
        assert(glob(q.skip(1), t.skip(k)));
    }
}

/// `**`, before any pattern, matches any part: what comes after that part is matched by
/// the pattern.
pub proof fn law_double_star_before(p: Seq<u8>, t: Seq<u8>)
    ensures
        glob(seq![0x2au8, 0x2au8] + p, t) <==> exists|k: int|
            0 <= k <= t.len() && glob(p, #[trigger] t.skip(k)),
{
    let q = seq![0x2au8, 0x2au8] + p;
    assert(q.skip(2) =~= p);
    assert(q[0] == 0x2au8 && q[1] == 0x2au8);
    if glob(q, t) {
        let k = choose|k: int| 0 <= k <= t.len() && glob(q.skip(2), #[trigger] t.skip(k));
        assert(glob(p, t.skip(k)));
    }
    if exists|k: int| 0 <= k <= t.len() && glob(p, #[trigger] t.skip(k)) {
        let k = choose|k: int| 0 <= k <= t.len() && glob(p, #[trigger] t.skip(k));
        assert(glob(q.skip(2), t.skip(k)));
    }
}

/// `?`, before any pattern, matches one byte that is no `/`.
pub proof fn law_question_mark_before(p: Seq<u8>, t: Seq<u8>)
    ensures
        glob(seq![0x3fu8] + p, t) <==> t.len() > 0 && t[0] != 0x2fu8 && glob(p, t.skip(1)),
{
    let q = seq![0x3fu8] + p;
    assert(q.skip(1) =~= p);
    assert(q[0] == 0x3fu8);
}

/// How many bytes of a text are `/`.
pub open spec fn slashes(t: Seq<u8>) -> int
    decreases t.len(),
{
    if t.len() == 0 {
        0
    } else {
        slashes(t.drop_last()) + (if t.last() == 0x2fu8 {
            1int
        } else {
            0
        })
    }
}

/// The `/` of a text are those of its parts.
proof fn lemma_slashes(a: Seq<u8>, b: Seq<u8>)
    ensures
        slashes(a + b) == slashes(a) + slashes(b),
    decreases b.len(),
{
    if b.len() == 0 {
        assert(a + b =~= a);
    } else {
        assert((a + b).drop_last() =~= a + b.drop_last());
        assert((a + b).last() == b.last());
        lemma_slashes(a, b.drop_last());
    }
}

/// A text without `/` has none.
proof fn lemma_no_slashes(t: Seq<u8>)
    requires
        one_name(t),
    ensures
        slashes(t) == 0,
    decreases t.len(),
{
    if t.len() > 0 {
        assert(one_name(t.drop_last())) by {
            assert forall|i: int| 0 <= i < t.drop_last().len() implies t.drop_last()[i]
                != 0x2fu8 by {
                assert(t.drop_last()[i] == t[i]);
            }
        }
        lemma_no_slashes(t.drop_last());
        assert(t.last() == t[t.len() - 1]);
    }
}

/// A pattern without `**` matches only paths with as many `/` as it has itself: `*` and
/// `?` stay within one name.
pub proof fn law_stars_stay_within_names(p: Seq<u8>, t: Seq<u8>)
    requires
        forall|i: int| 0 <= i < p.len() - 1 ==> !(#[trigger] p[i] == 0x2au8 && p[i + 1] == 0x2au8),
        glob(p, t),
    ensures
        slashes(p) == slashes(t),
    decreases p.len(),
{
    if p.len() == 0 {
        assert(t =~= p);
    } else {
        let rest = p.skip(1);
        assert forall|i: int| 0 <= i < rest.len() - 1 implies !(#[trigger] rest[i] == 0x2au8
            && rest[i + 1] == 0x2au8) by {
            assert(rest[i] == p[i + 1] && rest[i + 1] == p[i + 2]);
        }
        assert(p =~= seq![p[0]] + rest);
        lemma_slashes(seq![p[0]], rest);
        reveal_with_fuel(slashes, 2);
        let first = seq![p[0]];
        assert(first.drop_last() =~= seq![]);
        assert(slashes(first) == (if p[0] == 0x2fu8 {
            1int
        } else {
            0
        }));
        if p[0] == 0x2au8 {
            if p.len() > 1 {
                assert(p[0] == 0x2au8 && p[1] != 0x2au8);
            }
            law_star_before(rest, t);
            let k = choose|k: int|
                0 <= k <= t.len() && (forall|i: int| 0 <= i < k ==> t[i] != 0x2fu8) && glob(
                    rest,
                    #[trigger] t.skip(k),
                );
            law_stars_stay_within_names(rest, t.skip(k));
            assert(t =~= t.take(k) + t.skip(k));
            lemma_slashes(t.take(k), t.skip(k));
            assert(one_name(t.take(k)));
            lemma_no_slashes(t.take(k));
        } else {
            law_stars_stay_within_names(rest, t.skip(1));
            assert(t =~= seq![t[0]] + t.skip(1));
            lemma_slashes(seq![t[0]], t.skip(1));
            let one = seq![t[0]];
            assert(one.drop_last() =~= seq![]);
            assert(slashes(one) == (if t[0] == 0x2fu8 {
                1int
            } else {
                0
            }));
        }
    }
}

} // verus!
