//! Where paths lead, and in which order they come.
use crate::listening::lemma_filter_parts;
use crate::order::{lower, path_order, precedes, Order};
use crate::paths::{
    before_separator, entered, fixed_names, has_drive, idle_dropped, idle_skipped, is_rooted,
    is_separator, is_verbatim, lemma_idle_skipped, lemma_names_below, lemma_slashed, names_below,
    names_inside, path_absolute, path_joined, path_names, path_rel, prefix_len, proper_names,
    resolved, slashed,
};
use crate::text::{before, begins, joined, lemma_before, lemma_before_is, split_at_char};
use vstd::prelude::*;

verus! {

// ---------------------------------------------------------------------------
// Joining.
// ---------------------------------------------------------------------------

/// A path that starts with `/` is seen as itself; any other behind the directory, with one
/// `/` between the two.
pub proof fn law_joined_paths(base: Seq<char>, p: Seq<char>)
    ensures
        p.len() > 0 && p[0] == '/' ==> path_joined(false, base, p) == p,
        !(p.len() > 0 && p[0] == '/') && base.len() > 0 && base.last() != '/' ==> path_joined(
            false,
            base,
            p,
        ) == base + seq!['/'] + p,
        !(p.len() > 0 && p[0] == '/') && (base.len() == 0 || base.last() == '/') ==> path_joined(
            false,
            base,
            p,
        ) == base + p,
        path_absolute(false, p) <==> p.len() > 0 && p[0] == '/',
{
    reveal_strlit("/");
    assert("/"@ =~= seq!['/']);
}

/// On Windows a path that has a prefix is seen as itself, and one that has none and does
/// not start with a separator behind the directory, with one separator between the two. A
/// drive makes a path absolute only with a separator behind it.
pub proof fn law_joined_on_windows(base: Seq<char>, p: Seq<char>)
    ensures
        prefix_len(p) > 0 ==> path_joined(true, base, p) == p,
        prefix_len(p) == 0 && p.len() > 0 && !is_separator(p[0]) && !is_verbatim(base) && base.len()
            > 2 && !is_separator(base.last()) ==> path_joined(true, base, p) == base + seq!['\\']
            + p,
        prefix_len(p) == 0 && p.len() > 0 && is_separator(p[0]) && !is_verbatim(base)
            ==> path_joined(true, base, p) == base.take(prefix_len(base)) + p,
        has_drive(p) ==> prefix_len(p) == 2 && (path_absolute(true, p) <==> p.len() > 2
            && is_separator(p[2])),
{
    reveal_strlit("\\");
    assert("\\"@ =~= seq!['\\']);
}

// ---------------------------------------------------------------------------
// Where a path leads.
// ---------------------------------------------------------------------------

/// One more name at the end of a list is resolved last.
proof fn lemma_resolved_push(names: Seq<Seq<char>>, x: Seq<char>, out: Seq<Seq<char>>, fixed: int)
    ensures
        resolved(names.push(x), out, fixed) == ({
            let r = resolved(names, out, fixed);
            if x.len() == 0 || x == "."@ {
                r
            } else if x == ".."@ {
                if r.len() > fixed {
                    r.drop_last()
                } else {
                    r
                }
            } else {
                r.push(x)
            }
        }),
    decreases names.len(),
{
    let all = names.push(x);
    if names.len() == 0 {
        assert(all.drop_first() =~= seq![]);
        reveal_with_fuel(resolved, 3);
    } else {
        assert(all[0] == names[0]);
        assert(all.drop_first() =~= names.drop_first().push(x));
        let next = if names[0].len() == 0 || names[0] == "."@ {
            out
        } else if names[0] == ".."@ {
            if out.len() > fixed {
                out.drop_last()
            } else {
                out
            }
        } else {
            out.push(names[0])
        };
        lemma_resolved_push(names.drop_first(), x, next, fixed);
    }
}

/// Splitting a text with one more part behind it.
proof fn lemma_split_push(s: Seq<char>, c: char, x: Seq<char>)
    requires
        !x.contains(c),
    ensures
        split_at_char(s + seq![c] + x, c) == split_at_char(s, c).push(x),
    decreases s.len(),
{
    let t = s + seq![c] + x;
    lemma_before(s, c);
    let k = before(s, c);
    if k < s.len() {
        assert forall|i: int| 0 <= i < k implies t[i] != c by {
            assert(t[i] == s[i]);
        }
        assert(t[k] == c);
        lemma_before_is(t, c, k);
        assert(t.take(k) =~= s.take(k));
        assert(t.skip(k + 1) =~= s.skip(k + 1) + seq![c] + x);
        lemma_split_push(s.skip(k + 1), c, x);
        assert(split_at_char(t, c) =~= split_at_char(s, c).push(x));
    } else {
        let n = s.len() as int;
        assert forall|i: int| 0 <= i < n implies t[i] != c by {
            assert(t[i] == s[i]);
        }
        assert(t[n] == c);
        lemma_before_is(t, c, n);
        assert(t.take(n) =~= s);
        assert(t.skip(n + 1) =~= x);
        assert forall|i: int| 0 <= i < x.len() implies x[i] != c by {
            assert(x.contains(x[i]));
        }
        lemma_before_is(x, c, x.len() as int);
        assert(split_at_char(x, c) == seq![x]);
        assert(split_at_char(t, c) =~= seq![s].push(x));
    }
}

/// A name behind a path leads one further; `..` leads one back, but not above the start;
/// `.` and a `/` too many lead nowhere.
pub proof fn law_path_leads(p: Seq<char>, name: Seq<char>)
    requires
        !name.contains('/'),
    ensures
        path_names(false, Seq::<char>::empty()) == Seq::<Seq<char>>::empty(),
        name.len() == 0 || name == "."@ ==> path_names(false, p + seq!['/'] + name) == path_names(
            false,
            p,
        ),
        name == ".."@ && path_names(false, p).len() > 0 ==> path_names(
            false,
            p + seq!['/'] + name,
        ) == path_names(false, p).drop_last(),
        name == ".."@ && path_names(false, p).len() == 0 ==> path_names(
            false,
            p + seq!['/'] + name,
        ).len() == 0,
        name.len() > 0 && name != "."@ && name != ".."@ ==> path_names(false, p + seq!['/'] + name)
            == path_names(false, p).push(name),
{
    reveal_strlit(".");
    reveal_strlit("..");
    lemma_split_push(p, '/', name);
    lemma_resolved_push(split_at_char(p, '/'), name, seq![], 0);
    let none = Seq::<char>::empty();
    lemma_before(none, '/');
    assert(split_at_char(none, '/') == seq![none]);
    reveal_with_fuel(resolved, 3);
    assert(seq![none].drop_first() =~= seq![]);
}

/// A path lies inside a directory where it leads through the names of the directory, and
/// further; what it leads through from there are the names inside.
pub proof fn law_inside(
    windows: bool,
    root: Seq<char>,
    p: Seq<char>,
    names: Seq<Seq<char>>,
)
    ensures
        names_inside(windows, root, p) == Some(names) <==> names.len() > 0 && is_rooted(
            windows,
            root,
        ) == is_rooted(windows, p) && path_names(windows, p) == path_names(windows, root) + names,
{
    let dir = path_names(windows, root);
    let all = path_names(windows, p);
    if names_inside(windows, root, p) == Some(names) {
        assert(all =~= dir + names);
    }
    if all == dir + names {
        assert(all.take(dir.len() as int) =~= dir);
        assert(all.skip(dir.len() as int) =~= names);
    }
}

/// On Windows `\` separates as `/` does, and nothing leads above a drive or a share: one
/// name for a drive, and two for a share.
pub proof fn law_path_leads_on_windows(p: Seq<char>, sep: char, name: Seq<char>)
    requires
        is_separator(sep),
        !name.contains('/'),
        !name.contains('\\'),
        prefix_len(p + seq![sep] + name) == prefix_len(p),
        has_drive(p + seq![sep] + name) == has_drive(p),
    ensures
        ({
            let names = path_names(true, p);
            let more = path_names(true, p + seq![sep] + name);
            let kept: int = if prefix_len(p) == 0 {
                0
            } else if has_drive(p) {
                1
            } else {
                2
            };
            &&& name.len() == 0 || name == "."@ ==> more == names
            &&& name == ".."@ && names.len() > kept ==> more == names.drop_last()
            &&& name == ".."@ && names.len() <= kept ==> more == names
            &&& name.len() > 0 && name != "."@ && name != ".."@ ==> more == names.push(name)
        }),
{
    reveal_strlit(".");
    reveal_strlit("..");
    let q = p + seq![sep] + name;
    lemma_slashed(p);
    lemma_slashed(q);
    assert(slashed(true, q) =~= slashed(true, p) + seq!['/'] + name) by {
        assert forall|i: int| 0 <= i < name.len() implies name[i] != '\\' by {
            assert(name.contains(name[i]));
        }
    }
    lemma_split_push(slashed(true, p), '/', name);
    lemma_resolved_push(split_at_char(slashed(true, p), '/'), name, seq![], fixed_names(true, p));
}

// ---------------------------------------------------------------------------
// Seen from a repository.
// ---------------------------------------------------------------------------

/// The name of a file in a repository is what stands behind the root of the repository in
/// its path, with `/` for every `\`; a path that does not start at the root of the file
/// system, where the repository does, is taken as it is.
pub proof fn law_seen_from_root(root: Seq<char>, rest: Seq<char>)
    requires
        root.len() > 0,
        root.last() != '/',
        rest.len() > 0,
        idle_skipped(rest) == rest,
        idle_dropped(rest) == rest,
    ensures
        path_rel(false, root, root + seq!['/'] + rest) == Seq::new(
            rest.len(),
            |i: int|
                if rest[i] == '\\' {
                    '/'
                } else {
                    rest[i]
                },
        ),
        root[0] == '/' ==> path_rel(false, root, rest) == Seq::new(
            rest.len(),
            |i: int|
                if rest[i] == '\\' {
                    '/'
                } else {
                    rest[i]
                },
        ),
{
    let t = seq!['/'] + rest;
    let p = root + t;
    assert(root + seq!['/'] + rest =~= p);
    assert(t.skip(1) =~= rest);
    lemma_idle_skipped(rest);
    assert(idle_skipped(t) == rest);
    lemma_names_below(root, t);
    assert(p[0] == root[0]);
    if root.len() > 1 {
        assert(p[1] == root[1]);
    } else {
        assert(p[1] == '/');
    }
    lemma_slashed(rest);
}

/// The names of a path, without those that lead nowhere, where `/` separates them.
pub open spec fn steps(s: Seq<char>) -> Seq<Seq<char>>
    decreases s.len(),
    via steps_end
{
    let r = idle_skipped(s);
    if r.len() == 0 {
        seq![]
    } else {
        seq![r.take(before(r, '/'))] + steps(r.skip(before(r, '/')))
    }
}

/// Each step leaves a shorter path.
#[via_fn]
proof fn steps_end(s: Seq<char>) {
    lemma_idle_skipped(s);
    let r = idle_skipped(s);
    lemma_before(r, '/');
}

/// Whether a name leads anywhere: it is neither empty nor `.`.
pub open spec fn leads(name: Seq<char>) -> bool {
    name.len() > 0 && name != "."@
}

/// What stands between the separators of a path, without what leads nowhere.
proof fn lemma_parts_of(s: Seq<char>)
    ensures
        ({
            let keep = |n: Seq<char>| leads(n);
            let k = before(s, '/');
            split_at_char(s, '/').filter(keep) == (if leads(s.take(k)) {
                seq![s.take(k)]
            } else {
                seq![]
            }) + (if k < s.len() {
                split_at_char(s.skip(k + 1), '/').filter(keep)
            } else {
                seq![]
            })
        }),
{
    let keep = |n: Seq<char>| leads(n);
    let k = before(s, '/');
    lemma_before(s, '/');
    reveal(Seq::filter);
    let one = seq![s.take(k)];
    let none = Seq::<Seq<char>>::empty();
    assert(one.drop_last() =~= none);
    assert(none.filter(keep) =~= none);
    assert(one.filter(keep) =~= if leads(s.take(k)) {
        one
    } else {
        none
    });
    if k < s.len() {
        lemma_filter_parts(one, split_at_char(s.skip(k + 1), '/'), keep);
    } else {
        assert(s.take(k) =~= s);
        assert(split_at_char(s, '/') =~= one);
        assert(one.filter(keep) + none =~= one.filter(keep));
    }
}

/// What is skipped at the front of a path leads nowhere.
proof fn lemma_skipped_parts(s: Seq<char>)
    ensures
        split_at_char(idle_skipped(s), '/').filter(|n: Seq<char>| leads(n)) == split_at_char(
            s,
            '/',
        ).filter(|n: Seq<char>| leads(n)),
    decreases s.len(),
{
    reveal_strlit(".");
    let keep = |n: Seq<char>| leads(n);
    let none = Seq::<Seq<char>>::empty();
    if s.len() > 0 && s[0] == '/' {
        lemma_skipped_parts(s.skip(1));
        lemma_before_is(s, '/', 0);
        lemma_parts_of(s);
        assert(s.take(0).len() == 0);
        let rest = split_at_char(s.skip(1), '/').filter(keep);
        assert(none + rest =~= rest);
    } else if s.len() > 0 && s[0] == '.' && (s.len() == 1 || s[1] == '/') {
        lemma_skipped_parts(s.skip(1));
        lemma_before_is(s, '/', 1);
        lemma_parts_of(s);
        assert(s.take(1) =~= "."@);
        let t = s.skip(1);
        lemma_before_is(t, '/', 0);
        lemma_parts_of(t);
        assert(t.take(0).len() == 0);
        if s.len() > 1 {
            assert(t.skip(1) =~= s.skip(2));
        }
        assert(split_at_char(s, '/').filter(keep) =~= split_at_char(t, '/').filter(keep));
    }
}

/// The names of a path are what stands between its separators, but for the empty ones and
/// `.`.
pub proof fn law_steps(s: Seq<char>)
    ensures
        steps(s) == split_at_char(s, '/').filter(|n: Seq<char>| leads(n)),
    decreases s.len(),
{
    reveal_strlit(".");
    let keep = |n: Seq<char>| leads(n);
    let none = Seq::<Seq<char>>::empty();
    let r = idle_skipped(s);
    lemma_idle_skipped(s);
    lemma_skipped_parts(s);
    lemma_parts_of(r);
    lemma_before(r, '/');
    let k = before(r, '/');
    if r.len() > 0 {
        let t = r.skip(k);
        law_steps(t);
        assert(leads(r.take(k))) by {
            assert(r[0] != '/');
            assert(k > 0);
            if r.take(k) == "."@ {
                assert(r.take(k).len() == "."@.len());
                assert(r.take(k)[0] == "."@[0]);
                assert(r[0] == '.');
            }
        }
        if k < r.len() {
            lemma_before_is(t, '/', 0);
            lemma_parts_of(t);
            assert(t.take(0).len() == 0);
            assert(t.skip(1) =~= r.skip(k + 1));
            let rest = split_at_char(r.skip(k + 1), '/').filter(keep);
            assert(none + rest =~= rest);
        } else {
            assert(t =~= Seq::<char>::empty());
            lemma_parts_of(t);
            lemma_before(t, '/');
            assert(t.take(0).len() == 0);
            assert(none + none =~= none);
        }
        assert(steps(s) =~= split_at_char(s, '/').filter(keep));
    } else {
        assert(r.take(k).len() == 0);
        assert(none + none =~= none);
    }
}

/// A path is seen from a directory where its names begin with those of the directory, and
/// is taken as it is, with `/` for every `\`, where they do not.
pub proof fn law_seen_below(root: Seq<char>, p: Seq<char>)
    ensures
        names_below(root, p) is Some <==> steps(root).len() <= steps(p).len() && steps(p).take(
            steps(root).len() as int,
        ) == steps(root),
        root.len() > 0 && root[0] == '/' && p.len() > 0 && p[0] == '/' && names_below(root, p)
            is None ==> path_rel(false, root, p) == Seq::new(
            p.len(),
            |i: int|
                if p[i] == '\\' {
                    '/'
                } else {
                    p[i]
                },
        ),
    decreases root.len(),
{
    let r = idle_skipped(root);
    let q = idle_skipped(p);
    lemma_idle_skipped(root);
    lemma_idle_skipped(p);
    lemma_before(r, '/');
    lemma_before(q, '/');
    let k = before(r, '/');
    let m = before(q, '/');
    lemma_slashed(p);
    if r.len() == 0 {
        assert(steps(root) =~= seq![]);
        assert(steps(p).take(0) =~= seq![]);
    } else if q.len() == 0 {
        assert(q.take(m).len() == 0);
        assert(r.take(k).len() > 0);
        assert(steps(p).len() == 0);
    } else {
        let more = steps(r.skip(k));
        let rest = steps(q.skip(m));
        let n = more.len() as int;
        assert(steps(root) =~= seq![r.take(k)] + more);
        assert(steps(p) =~= seq![q.take(m)] + rest);
        law_seen_below(r.skip(k), q.skip(m));
        if names_below(root, p) is Some {
            assert(steps(p).take(n + 1) =~= seq![q.take(m)] + rest.take(n));
        }
        if n <= rest.len() && steps(p).take(n + 1) == steps(root) {
            assert(steps(p).take(n + 1)[0] == steps(root)[0]);
            assert(rest.take(n) =~= steps(p).take(n + 1).drop_first());
            assert(more =~= steps(root).drop_first());
        }
    }
}

/// A `/` or a `.` too many at the end of a path is dropped, and nothing else is.
pub proof fn law_end_is_dropped(s: Seq<char>)
    requires
        s.len() > 0,
    ensures
        idle_dropped(s.push('/')) == idle_dropped(s),
        idle_dropped(s.push('/').push('.')) == idle_dropped(s),
        s.last() != '/' && !(s.len() > 1 && s.last() == '.' && s[s.len() - 2] == '/')
            ==> idle_dropped(s) == s,
{
    assert(s.push('/').drop_last() =~= s);
    assert(s.push('/').push('.').drop_last() =~= s.push('/'));
    reveal_with_fuel(idle_dropped, 3);
}

// ---------------------------------------------------------------------------
// The prefixes of Windows.
// ---------------------------------------------------------------------------

/// What comes before the first separator.
proof fn lemma_before_separator_is(s: Seq<char>, k: int)
    requires
        0 <= k <= s.len(),
        forall|i: int| 0 <= i < k ==> !is_separator(#[trigger] s[i]),
        k < s.len() ==> is_separator(s[k]),
    ensures
        before_separator(s) == k,
    decreases s.len(),
{
    if k > 0 {
        let t = s.drop_first();
        assert forall|i: int| 0 <= i < k - 1 implies !is_separator(#[trigger] t[i]) by {
            assert(t[i] == s[i + 1]);
        }
        assert(!is_separator(s[0]));
        lemma_before_separator_is(t, k - 1);
    }
}

/// Whether a text holds no separator of Windows, and is not empty.
pub open spec fn is_one_name(s: Seq<char>) -> bool {
    s.len() > 0 && forall|i: int| 0 <= i < s.len() ==> !is_separator(#[trigger] s[i])
}

/// Whether a text is empty, or begins with a separator of Windows.
pub open spec fn is_behind_name(s: Seq<char>) -> bool {
    s.len() == 0 || is_separator(s[0])
}

/// A path without a drive that does not begin with two separators has no prefix. A letter
/// and a colon are a drive, and a prefix.
pub proof fn law_drive(p: Seq<char>)
    ensures
        has_drive(p) <==> p.len() >= 2 && ('a' <= p[0] <= 'z' || 'A' <= p[0] <= 'Z') && p[1] == ':',
        has_drive(p) ==> prefix_len(p) == 2,
        !has_drive(p) && !(p.len() >= 2 && is_separator(p[0]) && is_separator(p[1])) ==> prefix_len(
            p,
        ) == 0,
{
}

/// A server and a share behind two separators are a prefix; a server alone is none.
pub proof fn law_share(
    a: char,
    b: char,
    c: char,
    server: Seq<char>,
    share: Seq<char>,
    rest: Seq<char>,
)
    requires
        is_separator(a),
        is_separator(b),
        is_separator(c),
        is_one_name(server),
        is_one_name(share),
        is_behind_name(rest),
        server.len() > 1 || server[0] != '.' && server[0] != '?',
    ensures
        prefix_len(seq![a, b] + server + seq![c] + share + rest) == 3 + server.len() + share.len(),
        prefix_len(seq![a, b] + server) == 0,
        prefix_len(seq![a, b] + server + seq![c]) == 0,
{
    let p = seq![a, b] + server + seq![c] + share + rest;
    let n = server.len() as int;
    assert(p[0] == a && p[1] == b && p[2] == server[0]);
    assert(p[3] == (if n > 1 {
        server[1]
    } else {
        c
    }));
    if n > 1 {
        assert(!is_separator(server[1]));
    }
    let s = p.skip(2);
    assert forall|i: int| 0 <= i < n implies !is_separator(#[trigger] s[i]) by {
        assert(s[i] == server[i]);
    }
    assert(s[n] == c);
    lemma_before_separator_is(s, n);
    let t = p.skip(3 + n);
    let m = share.len() as int;
    assert forall|i: int| 0 <= i < m implies !is_separator(#[trigger] t[i]) by {
        assert(t[i] == share[i]);
    }
    assert(rest.len() > 0 ==> t[m] == rest[0]);
    lemma_before_separator_is(t, m);
    let q = seq![a, b] + server;
    assert(q[0] == a && q[1] == b && q[2] == server[0]);
    assert(n > 1 ==> q[3] == server[1]);
    assert(q.skip(2) =~= server);
    lemma_before_separator_is(server, n);
    let r = q + seq![c];
    assert(r[0] == a && r[1] == b && r[2] == server[0]);
    assert(r[3] == (if n > 1 {
        server[1]
    } else {
        c
    }));
    let u = r.skip(2);
    assert forall|i: int| 0 <= i < n implies !is_separator(#[trigger] u[i]) by {
        assert(u[i] == server[i]);
    }
    assert(u[n] == c);
    lemma_before_separator_is(u, n);
    assert(r.skip(3 + n) =~= seq![]);
}

/// A device behind `\\.\` is a prefix.
pub proof fn law_device(a: char, b: char, c: char, name: Seq<char>, rest: Seq<char>)
    requires
        is_separator(a),
        is_separator(b),
        is_separator(c),
        is_one_name(name),
        is_behind_name(rest),
    ensures
        prefix_len(seq![a, b, '.', c] + name + rest) == 4 + name.len(),
{
    let p = seq![a, b, '.', c] + name + rest;
    let n = name.len() as int;
    assert(p[0] == a && p[1] == b && p[2] == '.' && p[3] == c);
    let s = p.skip(4);
    assert forall|i: int| 0 <= i < n implies !is_separator(#[trigger] s[i]) by {
        assert(s[i] == name[i]);
    }
    assert(rest.len() > 0 ==> s[n] == rest[0]);
    lemma_before_separator_is(s, n);
}

/// What a verbatim path begins with: `\\?\` and any one name that is not `UNC`.
pub proof fn law_verbatim(p: Seq<char>, name: Seq<char>, rest: Seq<char>)
    requires
        !name.contains('\\'),
        rest.len() == 0 || rest[0] == '\\',
        name != "UNC"@,
        !(name.len() > 2 && has_drive(name)),
        p == seq!['\\', '\\', '?', '\\'] + name + rest,
    ensures
        is_verbatim(p),
        prefix_len(p) == 4 + name.len(),
{
    let s = p.skip(4);
    let n = name.len() as int;
    assert(s =~= name + rest);
    assert(p[0] == '\\' && p[1] == '\\' && p[2] == '?' && p[3] == '\\');
    assert forall|i: int| 0 <= i < n implies s[i] != '\\' by {
        assert(s[i] == name[i]);
        assert(name.contains(name[i]));
    }
    assert(rest.len() > 0 ==> s[n] == rest[0]);
    lemma_before_is(s, '\\', n);
    reveal_strlit("UNC\\");
    reveal_strlit("UNC");
    if begins(s, "UNC\\"@) {
        assert("UNC\\"@[3] == '\\');
        assert(s.take(4)[3] == s[3]);
        assert(s.take(4)[0] == 'U' && s.take(4)[1] == 'N' && s.take(4)[2] == 'C');
        assert(n <= 3);
        if n < 3 {
            assert(s[n] == rest[0]);
        }
        assert(name =~= "UNC"@);
    }
    if has_drive(s) {
        assert(n >= 2) by {
            if n == 1 {
                assert(s[1] == '\\');
            }
        }
        assert(name[0] == s[0] && name[1] == s[1]);
        assert(has_drive(name));
    }
}

/// A verbatim path may begin with a drive, or, behind `UNC`, with a server and a share.
pub proof fn law_verbatim_places(
    drive: Seq<char>,
    server: Seq<char>,
    share: Seq<char>,
    rest: Seq<char>,
)
    requires
        has_drive(drive),
        drive.len() == 2,
        !server.contains('\\'),
        share.len() > 0,
        !share.contains('\\'),
        rest.len() == 0 || rest[0] == '\\',
    ensures
        prefix_len(seq!['\\', '\\', '?', '\\'] + drive + rest) == 6,
        prefix_len(
            seq!['\\', '\\', '?', '\\', 'U', 'N', 'C', '\\'] + server + seq!['\\'] + share + rest,
        ) == 9 + server.len() + share.len(),
{
    reveal_strlit("UNC\\");
    let p = seq!['\\', '\\', '?', '\\'] + drive + rest;
    let s = p.skip(4);
    assert(p[0] == '\\' && p[1] == '\\' && p[2] == '?' && p[3] == '\\');
    assert(s =~= drive + rest);
    assert(s[0] == drive[0] && s[1] == ':');
    if begins(s, "UNC\\"@) {
        assert(s.take(4)[1] == 'N');
    }
    let q = seq!['\\', '\\', '?', '\\', 'U', 'N', 'C', '\\'] + server + seq!['\\'] + share + rest;
    assert(q[0] == '\\' && q[1] == '\\' && q[2] == '?' && q[3] == '\\');
    let t = q.skip(4);
    assert(t.take(4) =~= "UNC\\"@);
    let u = t.skip(4);
    let n = server.len() as int;
    assert(u =~= server + seq!['\\'] + share + rest);
    assert forall|i: int| 0 <= i < n implies u[i] != '\\' by {
        assert(u[i] == server[i]);
        assert(server.contains(server[i]));
    }
    assert(u[n] == '\\');
    lemma_before_is(u, '\\', n);
    let v = u.skip(n + 1);
    let m = share.len() as int;
    assert(v =~= share + rest);
    assert forall|i: int| 0 <= i < m implies v[i] != '\\' by {
        assert(v[i] == share[i]);
        assert(share.contains(share[i]));
    }
    assert(rest.len() > 0 ==> v[m] == rest[0]);
    lemma_before_is(v, '\\', m);
}

/// Seen from a verbatim path, `..` leads one name back, but not above the start, and
/// neither `.` nor an empty name leads anywhere; any other name leads one further.
pub proof fn law_entered(names: Seq<Seq<char>>, x: Seq<char>, out: Seq<Seq<char>>)
    ensures
        entered(seq![], out) == out,
        entered(names.push(x), out) == ({
            let r = entered(names, out);
            if x.len() == 0 || x == "."@ {
                r
            } else if x == ".."@ {
                if r.len() > 0 && r.last() != "."@ && r.last() != ".."@ {
                    r.drop_last()
                } else {
                    r
                }
            } else {
                r.push(x)
            }
        }),
    decreases names.len(),
{
    let all = names.push(x);
    if names.len() == 0 {
        assert(all.drop_first() =~= seq![]);
        reveal_with_fuel(entered, 3);
    } else {
        assert(all[0] == names[0]);
        assert(all.drop_first() =~= names.drop_first().push(x));
        let next = if names[0].len() == 0 || names[0] == "."@ {
            out
        } else if names[0] == ".."@ {
            if out.len() > 0 && out.last() != "."@ && out.last() != ".."@ {
                out.drop_last()
            } else {
                out
            }
        } else {
            out.push(names[0])
        };
        law_entered(names.drop_first(), x, next);
    }
}

/// A path seen from a verbatim one keeps its prefix, and leads on from its names, or from
/// none where the path starts with a separator; `\` separates what comes out.
pub proof fn law_joined_to_verbatim(base: Seq<char>, rest: Seq<char>, p: Seq<char>)
    requires
        is_verbatim(base),
        p.len() > 0,
        prefix_len(p) == 0,
        prefix_len(base) < base.len(),
        base[prefix_len(base)] == '\\',
        rest == base.skip(prefix_len(base) + 1),
    ensures
        ({
            let from = if is_separator(p[0]) {
                seq![]
            } else {
                split_at_char(rest, '\\').filter(|n: Seq<char>| n.len() > 0)
            };
            let names = entered(split_at_char(slashed(true, p), '/'), from);
            path_joined(true, base, p) == base.take(prefix_len(base)) + seq!['\\'] + joined(
                names,
                seq!['\\'],
            )
        }),
{
    reveal_strlit("\\");
    assert("\\"@ =~= seq!['\\']);
    lemma_proper(split_at_char(rest, '\\'));
    assert(!has_drive(base));
}

/// The names that are not empty.
proof fn lemma_proper(list: Seq<Seq<char>>)
    ensures
        proper_names(list) == list.filter(|n: Seq<char>| n.len() > 0),
    decreases list.len(),
{
    reveal(Seq::filter);
    if list.len() > 0 {
        lemma_proper(list.drop_last());
    }
}

// ---------------------------------------------------------------------------
// Order.
// ---------------------------------------------------------------------------

/// A text comes before another where it is the beginning of it, or where the first
/// character in which they differ is lower.
pub proof fn law_precedes(order: Order, a: Seq<char>, b: Seq<char>)
    ensures
        precedes(order, a, b) <==> exists|k: int|
            0 <= k <= a.len() && k < b.len() && a.take(k) == #[trigger] b.take(k) && (k == a.len()
                || lower(order, a[k], b[k])),
    decreases a.len(),
{
    if precedes(order, a, b) {
        if a.len() == 0 {
            assert(a.take(0) =~= b.take(0));
        } else if lower(order, a[0], b[0]) {
            assert(a.take(0) =~= b.take(0));
        } else {
            let x = a.drop_first();
            let y = b.drop_first();
            law_precedes(order, x, y);
            let k = choose|k: int|
                0 <= k <= x.len() && k < y.len() && x.take(k) == #[trigger] y.take(k) && (k
                    == x.len() || lower(order, x[k], y[k]));
            assert(a.take(k + 1) =~= seq![a[0]] + x.take(k));
            assert(b.take(k + 1) =~= seq![b[0]] + y.take(k));
        }
    }
    if exists|k: int|
        0 <= k <= a.len() && k < b.len() && a.take(k) == #[trigger] b.take(k) && (k == a.len()
            || lower(order, a[k], b[k])) {
        let k = choose|k: int|
            0 <= k <= a.len() && k < b.len() && a.take(k) == #[trigger] b.take(k) && (k == a.len()
                || lower(order, a[k], b[k]));
        if k > 0 {
            let x = a.drop_first();
            let y = b.drop_first();
            assert(a.take(k)[0] == a[0] && b.take(k)[0] == b[0]);
            assert(x.take(k - 1) =~= a.take(k).drop_first());
            assert(y.take(k - 1) =~= b.take(k).drop_first());
            assert(k - 1 == x.len() || lower(order, x[k - 1], y[k - 1]));
            law_precedes(order, x, y);
        }
    }
}

/// Characters are in the order of their code points; in paths a separator comes before all
/// others, so that a directory comes before what begins with its name.
pub proof fn law_lower(a: char, b: char)
    ensures
        lower(Order::Text, a, b) <==> a < b,
        a != '/' && b != '/' ==> (lower(Order::Path, a, b) <==> a < b),
        b != '/' ==> lower(Order::Path, '/', b) && !lower(Order::Path, b, '/'),
        a != '/' && b != '/' && a != '\\' && b != '\\' ==> (lower(Order::Windows, a, b) <==> a < b),
        b != '/' ==> lower(Order::Windows, '/', b) && !lower(Order::Windows, b, '/'),
        b != '/' && b != '\\' ==> lower(Order::Windows, '\\', b) && !lower(Order::Windows, b, '\\'),
        path_order(false) == Order::Path,
        path_order(true) == Order::Windows,
{
}

} // verus!
