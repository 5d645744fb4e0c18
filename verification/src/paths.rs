//! Paths as text.
use crate::text::{
    before, begins, chars, find, join, joined, lemma_before, lemma_before_is, replace, replaced,
    same, slice_text, split, split_at_char, texts,
};
use vstd::prelude::*;

verus! {

/// Whether `c` separates names on Windows.
pub open spec fn is_separator(c: char) -> bool {
    c == '/' || c == '\\'
}

/// Whether `p` begins with a drive.
pub open spec fn has_drive(p: Seq<char>) -> bool {
    p.len() > 1 && (('a' <= p[0] <= 'z') || ('A' <= p[0] <= 'Z')) && p[1] == ':'
}

/// Whether `p` begins with a drive.
fn names_drive(v: &Vec<char>) -> (r: bool)
    ensures
        r == has_drive(v@),
{
    v.len() > 1 && (('a' <= v[0] && v[0] <= 'z') || ('A' <= v[0] && v[0] <= 'Z')) && v[1] == ':'
}

/// How many characters come before the first separator of `s` on Windows.
pub open spec fn before_separator(s: Seq<char>) -> int
    decreases s.len(),
{
    if s.len() == 0 || is_separator(s[0]) {
        0
    } else {
        1 + before_separator(s.drop_first())
    }
}

/// Whether a path of Windows is verbatim: it begins with `\\?\`.
pub open spec fn is_verbatim(p: Seq<char>) -> bool {
    p.len() > 3 && p[0] == '\\' && p[1] == '\\' && p[2] == '?' && p[3] == '\\'
}

/// How long the prefix of a verbatim path is: a share, a drive or any one name.
pub open spec fn verbatim_len(p: Seq<char>) -> int {
    let s = p.skip(4);
    if begins(s, "UNC\\"@) {
        let t = s.skip(4);
        let a = before(t, '\\');
        let b = if a < t.len() {
            before(t.skip(a + 1), '\\')
        } else {
            0
        };
        8 + a + (if b > 0 {
            1 + b
        } else {
            0
        })
    } else if has_drive(s) && (s.len() == 2 || is_separator(s[2])) {
        6
    } else {
        4 + before(s, '\\')
    }
}

/// How long the prefix of a path of Windows is: a drive, as in `C:`, a share, as in
/// `\\server\share`, a device, as in `\\.\name`, or what a verbatim path begins with.
/// It is 0 where there is none.
pub open spec fn prefix_len(p: Seq<char>) -> int {
    if has_drive(p) {
        2
    } else if p.len() < 2 || !is_separator(p[0]) || !is_separator(p[1]) {
        0
    } else if is_verbatim(p) {
        verbatim_len(p)
    } else if p.len() > 3 && p[2] == '.' && is_separator(p[3]) {
        4 + before_separator(p.skip(4))
    } else {
        let a = before_separator(p.skip(2));
        let b = if 2 + a < p.len() {
            before_separator(p.skip(3 + a))
        } else {
            0
        };
        if a > 0 && b > 0 {
            3 + a + b
        } else {
            0
        }
    }
}

/// Where names lead from a place below a verbatim prefix, `..` leading up to the
/// prefix at most.
pub open spec fn entered(names: Seq<Seq<char>>, out: Seq<Seq<char>>) -> Seq<Seq<char>>
    decreases names.len(),
{
    if names.len() == 0 {
        out
    } else if names[0].len() == 0 || names[0] == "."@ {
        entered(names.drop_first(), out)
    } else if names[0] == ".."@ {
        entered(
            names.drop_first(),
            if out.len() > 0 && out.last() != "."@ && out.last() != ".."@ {
                out.drop_last()
            } else {
                out
            },
        )
    } else {
        entered(names.drop_first(), out.push(names[0]))
    }
}

/// The names of a list that are not empty.
pub open spec fn proper_names(list: Seq<Seq<char>>) -> Seq<Seq<char>>
    decreases list.len(),
{
    if list.len() == 0 {
        seq![]
    } else if list.last().len() > 0 {
        proper_names(list.drop_last()).push(list.last())
    } else {
        proper_names(list.drop_last())
    }
}

/// A path of Windows without a prefix, seen from a verbatim one: its `.` and `..`
/// are resolved.
pub open spec fn verbatim_joined(base: Seq<char>, p: Seq<char>) -> Seq<char> {
    let n = verbatim_len(base);
    let rooted = n < base.len() && is_separator(base[n]);
    let from = if p.len() > 0 && is_separator(p[0]) {
        seq![]
    } else {
        proper_names(
            split_at_char(
                base.skip(
                    if rooted {
                        n + 1
                    } else {
                        n
                    },
                ),
                '\\',
            ),
        )
    };
    let names = entered(split_at_char(slashed(true, p), '/'), from);
    base.take(n) + (if rooted || is_separator(p[0]) || names.len() > 0 {
        "\\"@
    } else {
        seq![]
    }) + joined(names, "\\"@)
}

/// `p`, seen from `base`. A path that starts at the root is seen as itself, with `/`
/// between the two otherwise. On Windows a path with a prefix is seen as itself, one
/// that starts at the root keeps the prefix of `base`, and `\` comes between the two
/// otherwise.
pub open spec fn path_joined(windows: bool, base: Seq<char>, p: Seq<char>) -> Seq<char> {
    if !windows {
        if p.len() > 0 && p[0] == '/' {
            p
        } else if base.len() == 0 || base.last() == '/' {
            base + p
        } else {
            base + "/"@ + p
        }
    } else if prefix_len(p) > 0 {
        p
    } else if is_verbatim(base) && p.len() > 0 {
        verbatim_joined(base, p)
    } else if p.len() > 0 && is_separator(p[0]) {
        base.take(prefix_len(base)) + p
    } else if base.len() == 0 || is_separator(base.last()) || base.len() == 2 && has_drive(base) {
        base + p
    } else {
        base + "\\"@ + p
    }
}

/// What [`before_separator`] counts lies within the text.
proof fn lemma_before_separator(s: Seq<char>)
    ensures
        0 <= before_separator(s) <= s.len(),
    decreases s.len(),
{
    if s.len() > 0 && !is_separator(s[0]) {
        lemma_before_separator(s.drop_first());
    }
}

/// A prefix lies within its path.
proof fn lemma_prefix_len(p: Seq<char>)
    ensures
        0 <= prefix_len(p) <= p.len(),
        is_verbatim(p) ==> prefix_len(p) == verbatim_len(p) && verbatim_len(p) >= 4,
{
    reveal_strlit("UNC\\");
    if p.len() >= 2 {
        lemma_before_separator(p.skip(2));
        if p.len() > 3 {
            lemma_before_separator(p.skip(4));
            let s = p.skip(4);
            lemma_before(s, '\\');
            if begins(s, "UNC\\"@) {
                let t = s.skip(4);
                lemma_before(t, '\\');
                if before(t, '\\') < t.len() {
                    lemma_before(t.skip(before(t, '\\') + 1), '\\');
                }
            }
        }
        let a = before_separator(p.skip(2));
        if 2 + a < p.len() {
            lemma_before_separator(p.skip(3 + a));
        }
    }
}

/// Whether a character separates names on Windows.
fn separator(c: char) -> (r: bool)
    ensures
        r == is_separator(c),
{
    c == '/' || c == '\\'
}

/// The position of the first separator at or after `lo`, or the end.
fn find_separator(v: &Vec<char>, lo: usize) -> (r: usize)
    requires
        lo <= v@.len(),
    ensures
        lo <= r <= v@.len(),
        r - lo == before_separator(v@.skip(lo as int)),
{
    let mut i: usize = lo;
    while i < v.len() && !separator(v[i])
        invariant
            lo <= i <= v@.len(),
            before_separator(v@.skip(lo as int)) == i - lo + before_separator(v@.skip(i as int)),
        decreases v@.len() - i,
    {
        assert(v@.skip(i as int).drop_first() =~= v@.skip(i + 1));
        i = i + 1;
    }
    i
}

/// How long the prefix of a verbatim path is.
fn find_verbatim(v: &Vec<char>) -> (r: usize)
    requires
        is_verbatim(v@),
    ensures
        r == verbatim_len(v@),
        4 <= r <= v@.len(),
{
    proof {
        reveal_strlit("UNC\\");
        lemma_prefix_len(v@);
    }
    let ghost s = v@.skip(4);
    if v.len() > 7 && v[4] == 'U' && v[5] == 'N' && v[6] == 'C' && v[7] == '\\' {
        assert(s.take(4) =~= "UNC\\"@);
        assert(s.skip(4) =~= v@.skip(8));
        let a = find(v, 8, '\\');
        if a >= v.len() {
            return a;
        }
        assert(s.skip(4).skip(a - 8 + 1) =~= v@.skip(a + 1));
        let b = find(v, a + 1, '\\');
        if b > a + 1 {
            return b;
        }
        return a;
    }
    assert(!begins(s, "UNC\\"@)) by {
        if begins(s, "UNC\\"@) {
            assert(s.take(4)[0] == v@[4]);
            assert(s.take(4)[1] == v@[5]);
            assert(s.take(4)[2] == v@[6]);
            assert(s.take(4)[3] == v@[7]);
        }
    }
    let rest = chars(slice_text(v, 4, v.len()).as_str());
    assert(rest@ =~= s);
    if names_drive(&rest) && (rest.len() == 2 || separator(rest[2])) {
        return 6;
    }
    find(v, 4, '\\')
}

/// How long the prefix of a path of Windows is.
fn find_prefix(v: &Vec<char>) -> (r: usize)
    ensures
        r == prefix_len(v@),
        r <= v@.len(),
{
    proof {
        lemma_prefix_len(v@);
    }
    if names_drive(v) {
        return 2;
    }
    if v.len() < 2 || !separator(v[0]) || !separator(v[1]) {
        return 0;
    }
    if v.len() > 3 && v[0] == '\\' && v[1] == '\\' && v[2] == '?' && v[3] == '\\' {
        return find_verbatim(v);
    }
    if v.len() > 3 && v[2] == '.' && separator(v[3]) {
        return find_separator(v, 4);
    }
    let a = find_separator(v, 2);
    if a == 2 || a >= v.len() {
        return 0;
    }
    let b = find_separator(v, a + 1);
    if b == a + 1 {
        0
    } else {
        b
    }
}

/// A path with `/` for every separator.
pub open spec fn slashed(windows: bool, p: Seq<char>) -> Seq<char> {
    if windows {
        replaced(p, "\\"@, "/"@)
    } else {
        p
    }
}

/// A path with `/` for every separator.
fn with_slashes(windows: bool, p: &str) -> (r: String)
    ensures
        r@ == slashed(windows, p@),
{
    proof {
        reveal_strlit("\\");
    }
    if windows {
        replace(p, "\\", "/")
    } else {
        p.to_owned()
    }
}

/// The names of a list that are not empty.
fn keep_proper(list: &Vec<String>) -> (r: Vec<String>)
    ensures
        texts(r@) == proper_names(texts(list@)),
{
    let ghost all = texts(list@);
    let mut out: Vec<String> = Vec::new();
    let mut i: usize = 0;
    assert(texts(out@) =~= proper_names(all.take(0)));
    while i < list.len()
        invariant
            i <= list@.len(),
            all == texts(list@),
            texts(out@) == proper_names(all.take(i as int)),
        decreases list@.len() - i,
    {
        let ghost seen = out@;
        assert(all.take(i + 1).drop_last() =~= all.take(i as int));
        if !list[i].as_str().is_empty() {
            out.push(list[i].clone());
            assert(texts(out@) =~= texts(seen).push(list@[i as int]@));
        }
        i = i + 1;
    }
    assert(all.take(i as int) =~= all);
    out
}

/// Where names lead from a place below a verbatim prefix.
fn enter(names: &Vec<String>, out: Vec<String>) -> (r: Vec<String>)
    ensures
        texts(r@) == entered(texts(names@), texts(out@)),
{
    let ghost all = texts(names@);
    let ghost whole = entered(all, texts(out@));
    let mut out = out;
    let mut i: usize = 0;
    assert(all.skip(0) =~= all);
    while i < names.len()
        invariant
            i <= names@.len(),
            all == texts(names@),
            whole == entered(all.skip(i as int), texts(out@)),
        decreases names@.len() - i,
    {
        let ghost seen = texts(out@);
        assert(all.skip(i as int)[0] == names@[i as int]@);
        assert(all.skip(i as int).drop_first() =~= all.skip(i + 1));
        let name = names[i].as_str();
        if !name.is_empty() && !same(name, ".") {
            if same(name, "..") {
                let n: usize = out.len();
                assert(seen.len() == n);
                if n > 0 {
                    assert(seen.last() == out@[n - 1]@);
                    if !same(out[n - 1].as_str(), ".") && !same(out[n - 1].as_str(), "..") {
                        let _gone = out.pop();
                        assert(texts(out@) =~= seen.drop_last());
                    }
                }
            } else {
                out.push(names[i].clone());
                assert(texts(out@) =~= seen.push(names@[i as int]@));
            }
        }
        i = i + 1;
    }
    assert(all.skip(i as int).len() == 0);
    out
}

/// A path of Windows without a prefix, seen from a verbatim one.
fn join_verbatim(v: &Vec<char>, p: &str, w: &Vec<char>) -> (r: String)
    requires
        is_verbatim(v@),
        w@ == p@,
        w@.len() > 0,
    ensures
        r@ == verbatim_joined(v@, p@),
{
    let n = find_verbatim(v);
    let rooted = n < v.len() && separator(v[n]);
    let below = separator(w[0]);
    let from = if below {
        let none: Vec<String> = Vec::new();
        assert(texts(none@) =~= seq![]);
        none
    } else {
        let lo = if rooted {
            n + 1
        } else {
            n
        };
        assert(v@.skip(lo as int) =~= v@.subrange(lo as int, v@.len() as int));
        keep_proper(&split(slice_text(v, lo, v.len()).as_str(), '\\'))
    };
    let names = enter(&split(with_slashes(true, p).as_str(), '/'), from);
    let mut out = slice_text(v, 0, n);
    assert(out@ =~= v@.take(n as int));
    assert(texts(names@).len() == names@.len());
    let ghost start = out@;
    if rooted || below || names.len() > 0 {
        out.append("\\");
    } else {
        assert(start + Seq::<char>::empty() =~= start);
    }
    out.append(join(&names, "\\").as_str());
    out
}

/// `p`, seen from `base`.
pub fn join_path(windows: bool, base: &str, p: &str) -> (r: String)
    ensures
        r@ == path_joined(windows, base@, p@),
{
    let v = chars(base);
    let w = chars(p);
    if !windows {
        if w.len() > 0 && w[0] == '/' {
            return p.to_owned();
        }
        let mut out = base.to_owned();
        if v.len() > 0 && v[v.len() - 1] != '/' {
            out.append("/");
        }
        out.append(p);
        return out;
    }
    if find_prefix(&w) > 0 {
        return p.to_owned();
    }
    if w.len() > 0 && v.len() > 3 && v[0] == '\\' && v[1] == '\\' && v[2] == '?' && v[3] == '\\' {
        return join_verbatim(&v, p, &w);
    }
    if w.len() > 0 && separator(w[0]) {
        let n = find_prefix(&v);
        let mut out = slice_text(&v, 0, n);
        assert(out@ =~= base@.take(n as int));
        out.append(p);
        return out;
    }
    let mut out = base.to_owned();
    if v.len() > 0 && !separator(v[v.len() - 1]) && !(v.len() == 2 && names_drive(&v)) {
        out.append("\\");
    }
    out.append(p);
    out
}

/// Whether `p` needs no other path to start from: on Windows one with a prefix, and
/// where that is a drive, with its root; elsewhere one that starts at the root.
pub open spec fn path_absolute(windows: bool, p: Seq<char>) -> bool {
    if windows {
        prefix_len(p) > 0 && (has_drive(p) ==> p.len() > 2 && is_separator(p[2]))
    } else {
        p.len() > 0 && p[0] == '/'
    }
}

/// Whether `p` needs no other path to start from.
pub fn is_absolute(windows: bool, p: &str) -> (r: bool)
    ensures
        r == path_absolute(windows, p@),
{
    let v = chars(p);
    if windows {
        find_prefix(&v) > 0 && (!names_drive(&v) || (v.len() > 2 && separator(v[2])))
    } else {
        v.len() > 0 && v[0] == '/'
    }
}

// ---------------------------------------------------------------------------
// Where a path leads.
// ---------------------------------------------------------------------------

/// Where names lead, after those of `out`, of which the first `fixed` are never left:
/// `..` leads up, and neither an empty name nor `.` leads anywhere.
pub open spec fn resolved(names: Seq<Seq<char>>, out: Seq<Seq<char>>, fixed: int) -> Seq<Seq<char>>
    decreases names.len(),
{
    if names.len() == 0 {
        out
    } else if names[0].len() == 0 || names[0] == "."@ {
        resolved(names.drop_first(), out, fixed)
    } else if names[0] == ".."@ {
        resolved(
            names.drop_first(),
            if out.len() > fixed {
                out.drop_last()
            } else {
                out
            },
            fixed,
        )
    } else {
        resolved(names.drop_first(), out.push(names[0]), fixed)
    }
}

/// How many names of a path are its prefix, which `..` does not lead above: on Windows
/// a drive, or a share.
pub open spec fn fixed_names(windows: bool, p: Seq<char>) -> int {
    if !windows || prefix_len(p) == 0 {
        0
    } else if has_drive(p) {
        1
    } else {
        2
    }
}

/// The names that a path leads through, from the root or from wherever it starts.
pub open spec fn path_names(windows: bool, p: Seq<char>) -> Seq<Seq<char>> {
    resolved(split_at_char(slashed(windows, p), '/'), seq![], fixed_names(windows, p))
}

/// Whether a path starts with a separator.
pub open spec fn is_rooted(windows: bool, p: Seq<char>) -> bool {
    p.len() > 0 && (p[0] == '/' || windows && p[0] == '\\')
}

/// The names that lead from the directory `root` to the place of `p`, if it lies
/// there.
pub open spec fn names_inside(windows: bool, root: Seq<char>, p: Seq<char>) -> Option<
    Seq<Seq<char>>,
> {
    let dir = path_names(windows, root);
    let names = path_names(windows, p);
    if is_rooted(windows, root) == is_rooted(windows, p) && names.len() > dir.len() && names.take(
        dir.len() as int,
    ) == dir {
        Some(names.skip(dir.len() as int))
    } else {
        None
    }
}

/// The names that a path leads through.
fn find_names(windows: bool, p: &str) -> (r: Vec<String>)
    ensures
        texts(r@) == path_names(windows, p@),
{
    let v = chars(p);
    let fixed: usize = if !windows || find_prefix(&v) == 0 {
        0
    } else if names_drive(&v) {
        1
    } else {
        2
    };
    let names = split(with_slashes(windows, p).as_str(), '/');
    let ghost all = texts(names@);
    let ghost whole = resolved(all, seq![], fixed as int);
    let mut out: Vec<String> = Vec::new();
    let mut i: usize = 0;
    assert(texts(out@) =~= seq![]);
    assert(all.skip(0) =~= all);
    while i < names.len()
        invariant
            i <= names@.len(),
            all == texts(names@),
            whole == resolved(all.skip(i as int), texts(out@), fixed as int),
        decreases names@.len() - i,
    {
        let ghost seen = texts(out@);
        assert(all.skip(i as int)[0] == names@[i as int]@);
        assert(all.skip(i as int).drop_first() =~= all.skip(i + 1));
        let name = names[i].as_str();
        if !name.is_empty() && !same(name, ".") {
            if same(name, "..") {
                assert(seen.len() == out@.len());
                if out.len() > fixed {
                    let _gone = out.pop();
                    assert(texts(out@) =~= seen.drop_last());
                }
            } else {
                out.push(names[i].clone());
                assert(texts(out@) =~= seen.push(names@[i as int]@));
            }
        }
        i = i + 1;
    }
    assert(all.skip(i as int).len() == 0);
    out
}

/// Whether a path starts with a separator.
fn starts_rooted(windows: bool, p: &str) -> (r: bool)
    ensures
        r == is_rooted(windows, p@),
{
    let v = chars(p);
    v.len() > 0 && (v[0] == '/' || (windows && v[0] == '\\'))
}

/// The names that lead from the directory `root` to the place of `p`, if it lies
/// there.
pub fn find_inside(windows: bool, root: &str, p: &str) -> (r: Option<Vec<String>>)
    ensures
        match r {
            Some(names) => names_inside(windows, root@, p@) == Some(texts(names@)),
            None => names_inside(windows, root@, p@) is None,
        },
{
    let dir = find_names(windows, root);
    let names = find_names(windows, p);
    let ghost a = texts(dir@);
    let ghost b = texts(names@);
    assert(a.len() == dir@.len());
    assert(b.len() == names@.len());
    if starts_rooted(windows, root) != starts_rooted(windows, p) || names.len() <= dir.len() {
        return None;
    }
    let mut i: usize = 0;
    while i < dir.len()
        invariant
            i <= dir@.len() < names@.len(),
            a == texts(dir@),
            b == texts(names@),
            a == path_names(windows, root@),
            b == path_names(windows, p@),
            b.take(i as int) == a.take(i as int),
        decreases dir@.len() - i,
    {
        assert(a[i as int] == dir@[i as int]@ && b[i as int] == names@[i as int]@);
        if !same(dir[i].as_str(), names[i].as_str()) {
            assert(b.take(a.len() as int)[i as int] == b[i as int]);
            return None;
        }
        assert(a.take(i + 1) =~= a.take(i as int).push(a[i as int]));
        assert(b.take(i + 1) =~= b.take(i as int).push(b[i as int]));
        i = i + 1;
    }
    assert(a.take(i as int) =~= a);
    let mut rest: Vec<String> = Vec::new();
    assert(texts(rest@) =~= b.subrange(i as int, i as int));
    while i < names.len()
        invariant
            dir@.len() <= i <= names@.len(),
            b == texts(names@),
            texts(rest@) == b.subrange(dir@.len() as int, i as int),
        decreases names@.len() - i,
    {
        let ghost seen = texts(rest@);
        rest.push(names[i].clone());
        assert(texts(rest@) =~= seen.push(b[i as int]));
        assert(b.subrange(dir@.len() as int, i + 1) =~= b.subrange(
            dir@.len() as int,
            i as int,
        ).push(b[i as int]));
        i = i + 1;
    }
    assert(b.skip(a.len() as int) =~= b.subrange(a.len() as int, b.len() as int));
    Some(rest)
}

// ---------------------------------------------------------------------------
// Names relative to a directory.
// ---------------------------------------------------------------------------

/// Whether the first name of `s` is `.`.
pub open spec fn dot_first(s: Seq<char>) -> bool {
    s.len() > 0 && s[0] == '.' && (s.len() == 1 || s[1] == '/')
}

/// `s` without the separators and the names `.` that it begins with.
pub open spec fn idle_skipped(s: Seq<char>) -> Seq<char>
    decreases s.len(),
{
    if s.len() > 0 && (s[0] == '/' || dot_first(s)) {
        idle_skipped(s.skip(1))
    } else {
        s
    }
}

/// `s` without the separators and the names `.` that it ends with.
pub open spec fn idle_dropped(s: Seq<char>) -> Seq<char>
    decreases s.len(),
{
    if s.len() > 1 && (s.last() == '/' || (s.last() == '.' && s[s.len() - 2] == '/')) {
        idle_dropped(s.drop_last())
    } else {
        s
    }
}

/// What is left of `p` when the names of `root` are taken off its front, if
/// those are the names it begins with.
pub open spec fn names_below(root: Seq<char>, p: Seq<char>) -> Option<Seq<char>>
    decreases root.len(),
    via names_below_ends
{
    let r = idle_skipped(root);
    let q = idle_skipped(p);
    let k = before(r, '/');
    let m = before(q, '/');
    if r.len() == 0 {
        Some(idle_dropped(q))
    } else if r.take(k) == q.take(m) {
        names_below(r.skip(k), q.skip(m))
    } else {
        None
    }
}

/// What is skipped at the front of a path.
pub proof fn lemma_idle_skipped(s: Seq<char>)
    ensures
        idle_skipped(s).len() <= s.len(),
        idle_skipped(s).len() > 0 ==> idle_skipped(s)[0] != '/' && !dot_first(idle_skipped(s)),
    decreases s.len(),
{
    if s.len() > 0 && (s[0] == '/' || dot_first(s)) {
        lemma_idle_skipped(s.skip(1));
    }
}

/// Each step of [`names_below`] leaves a shorter root.
#[via_fn]
proof fn names_below_ends(root: Seq<char>, p: Seq<char>) {
    lemma_idle_skipped(root);
    lemma_before(idle_skipped(root), '/');
}

/// How a path starts: at the root, with the name `.`, or with any other name.
pub open spec fn start_of(s: Seq<char>) -> int {
    if s.len() > 0 && s[0] == '/' {
        0
    } else if dot_first(s) {
        1
    } else {
        2
    }
}

/// What is left of `p` below `root`, if it lies there.
pub open spec fn path_below(root: Seq<char>, p: Seq<char>) -> Option<Seq<char>> {
    if root.len() == 0 {
        Some(idle_dropped(p))
    } else if start_of(root) == start_of(p) {
        names_below(root, p)
    } else {
        None
    }
}

/// The name of `p` in the repository at `root`: what is left below it, or `p`
/// itself, with `/` for every `\`.
pub open spec fn path_rel(windows: bool, root: Seq<char>, p: Seq<char>) -> Seq<char> {
    replaced(
        match path_below(slashed(windows, root), slashed(windows, p)) {
            Some(t) => t,
            None => p,
        },
        "\\"@,
        "/"@,
    )
}

/// The place of the first name at or after `lo`.
fn skip_idle(v: &Vec<char>, lo: usize) -> (r: usize)
    requires
        lo <= v@.len(),
    ensures
        lo <= r <= v@.len(),
        idle_skipped(v@.skip(lo as int)) == v@.skip(r as int),
{
    let mut i: usize = lo;
    while i < v.len() && (v[i] == '/' || (v[i] == '.' && (i + 1 >= v.len() || v[i + 1] == '/')))
        invariant
            lo <= i <= v@.len(),
            idle_skipped(v@.skip(lo as int)) == idle_skipped(v@.skip(i as int)),
        decreases v@.len() - i,
    {
        assert(v@.skip(i as int).skip(1) =~= v@.skip(i + 1));
        i = i + 1;
    }
    i
}

/// What follows `lo`, without the separators and `.` names at its end.
fn drop_idle(v: &Vec<char>, lo: usize) -> (r: String)
    requires
        lo <= v@.len(),
    ensures
        r@ == idle_dropped(v@.skip(lo as int)),
{
    let mut hi: usize = v.len();
    assert(v@.skip(lo as int) =~= v@.subrange(lo as int, hi as int));
    while hi - lo > 1 && (v[hi - 1] == '/' || (v[hi - 1] == '.' && v[hi - 2] == '/'))
        invariant
            lo <= hi <= v@.len(),
            idle_dropped(v@.skip(lo as int)) == idle_dropped(v@.subrange(lo as int, hi as int)),
        decreases hi,
    {
        assert(v@.subrange(lo as int, hi as int).drop_last() =~= v@.subrange(lo as int, hi - 1));
        hi = hi - 1;
    }
    slice_text(v, lo, hi)
}

/// Where the name that starts at `lo` ends.
fn name_end(v: &Vec<char>, lo: usize) -> (r: usize)
    requires
        lo <= v@.len(),
    ensures
        lo <= r <= v@.len(),
        r - lo == before(v@.skip(lo as int), '/'),
{
    let mut i: usize = lo;
    while i < v.len() && v[i] != '/'
        invariant
            lo <= i <= v@.len(),
            before(v@.skip(lo as int), '/') == i - lo + before(v@.skip(i as int), '/'),
        decreases v@.len() - i,
    {
        assert(v@.skip(i as int).drop_first() =~= v@.skip(i + 1));
        i = i + 1;
    }
    i
}

/// How a path starts.
fn start_kind(v: &Vec<char>) -> (r: u8)
    ensures
        r == start_of(v@),
{
    if v.len() > 0 && v[0] == '/' {
        0
    } else if v.len() > 0 && v[0] == '.' && (v.len() == 1 || v[1] == '/') {
        1
    } else {
        2
    }
}

/// What is left of `p` below `root`, if it lies there.
pub fn strip_root(root: &str, p: &str) -> (r: Option<String>)
    ensures
        match r {
            Some(t) => path_below(root@, p@) == Some(t@),
            None => path_below(root@, p@) is None,
        },
{
    let v = chars(root);
    let w = chars(p);
    assert(v@.skip(0) =~= v@);
    assert(w@.skip(0) =~= w@);
    if v.len() == 0 {
        return Some(drop_idle(&w, 0));
    }
    if start_kind(&v) != start_kind(&w) {
        return None;
    }
    let mut i: usize = 0;
    let mut j: usize = 0;
    loop
        invariant
            v@ == root@,
            w@ == p@,
            i <= v@.len(),
            j <= w@.len(),
            path_below(root@, p@) == names_below(v@.skip(i as int), w@.skip(j as int)),
        decreases v@.len() - i,
    {
        let a = skip_idle(&v, i);
        let b = skip_idle(&w, j);
        if a >= v.len() {
            return Some(drop_idle(&w, b));
        }
        let n = name_end(&v, a);
        let m = name_end(&w, b);
        let ghost r = v@.skip(a as int);
        let ghost q = w@.skip(b as int);
        proof {
            lemma_idle_skipped(v@.skip(i as int));
            lemma_before(r.drop_first(), '/');
            assert(r.take(n - a) =~= v@.subrange(a as int, n as int));
            assert(q.take(m - b) =~= w@.subrange(b as int, m as int));
            assert(r.skip(n - a) =~= v@.skip(n as int));
            assert(q.skip(m - b) =~= w@.skip(m as int));
        }
        if slice_text(&v, a, n) != slice_text(&w, b, m) {
            return None;
        }
        i = n;
        j = m;
    }
}

/// Repository-relative path as a string.
pub fn rel(windows: bool, root: &str, p: &str) -> (r: String)
    ensures
        r@ == path_rel(windows, root@, p@),
{
    proof {
        reveal_strlit("\\");
    }
    match strip_root(with_slashes(windows, root).as_str(), with_slashes(windows, p).as_str()) {
        Some(t) => replace(t.as_str(), "\\", "/"),
        None => replace(p, "\\", "/"),
    }
}

// ---------------------------------------------------------------------------
// Laws.
// ---------------------------------------------------------------------------

/// Skipping at the front of a path with more behind it.
proof fn lemma_idle_append(s: Seq<char>, t: Seq<char>)
    requires
        t.len() > 0,
        t[0] == '/' || (s.len() > 0 && s.last() == '/'),
    ensures
        idle_skipped(s).len() > 0 ==> idle_skipped(s + t) == idle_skipped(s) + t && (t[0] == '/'
            || idle_skipped(s).last() == '/'),
        idle_skipped(s).len() == 0 ==> idle_skipped(s + t) == idle_skipped(t),
    decreases s.len(),
{
    let u = s + t;
    if s.len() == 0 {
        assert(u =~= t);
    } else {
        assert(u[0] == s[0]);
        if s.len() > 1 {
            assert(u[1] == s[1]);
        } else {
            assert(u[1] == t[0]);
        }
        if s[0] == '/' || dot_first(s) {
            assert(u.skip(1) =~= s.skip(1) + t);
            if s.len() > 1 {
                assert(s.skip(1).last() == s.last());
                lemma_idle_append(s.skip(1), t);
            } else {
                assert(s.skip(1) + t =~= t);
                assert(idle_skipped(s.skip(1)) == s.skip(1));
            }
        }
    }
}

/// Counting to a separator in a path with more behind it.
proof fn lemma_before_append(s: Seq<char>, t: Seq<char>)
    requires
        s.len() > 0,
        t.len() > 0,
        t[0] == '/' || s.last() == '/',
    ensures
        before(s + t, '/') == before(s, '/'),
    decreases s.len(),
{
    let u = s + t;
    assert(u[0] == s[0]);
    if s[0] != '/' {
        assert(u.drop_first() =~= s.drop_first() + t);
        if s.len() > 1 {
            assert(s.drop_first().last() == s.last());
            lemma_before_append(s.drop_first(), t);
        } else {
            assert(before(s.drop_first(), '/') == 0);
            assert(u.drop_first() =~= t);
            assert(before(t, '/') == 0);
        }
    }
}

/// Below a root come the names that were joined to it.
pub proof fn lemma_names_below(root: Seq<char>, t: Seq<char>)
    requires
        t.len() > 0,
        t[0] == '/' || root.len() == 0 || root.last() == '/',
    ensures
        names_below(root, root + t) == Some(idle_dropped(idle_skipped(t))),
    decreases root.len(),
{
    let r = idle_skipped(root);
    lemma_idle_skipped(root);
    if root.len() == 0 {
        assert(root + t =~= t);
    } else {
        lemma_idle_append(root, t);
        if r.len() > 0 {
            let k = before(r, '/');
            lemma_before(r, '/');
            lemma_before_append(r, t);
            let q = r + t;
            assert(q.take(k) =~= r.take(k));
            assert(q.skip(k) =~= r.skip(k) + t);
            if r.skip(k).len() > 0 {
                assert(r.skip(k).last() == r.last());
            }
            lemma_names_below(r.skip(k), t);
        }
    }
}

/// What stands behind a directory in a path is what is left of the path, seen from the
/// directory.
pub proof fn lemma_rel_below(windows: bool, root: Seq<char>, rest: Seq<char>)
    requires
        root.len() > 0,
        rest.len() > 0,
        idle_skipped(slashed(windows, rest)) == slashed(windows, rest),
        idle_dropped(slashed(windows, rest)) == slashed(windows, rest),
        !windows ==> !rest.contains('\\'),
        windows ==> !(root.len() == 2 && has_drive(root)) && !is_verbatim(root),
    ensures
        path_rel(windows, root, up_to_name(windows, root) + rest) == slashed(windows, rest),
{
    reveal_strlit("/");
    reveal_strlit("\\");
    let whole = up_to_name(windows, root) + rest;
    let dir = slashed(windows, root);
    let p = slashed(windows, whole);
    let s = slashed(windows, rest);
    lemma_slashed(rest);
    lemma_slashed(root);
    lemma_slashed(whole);
    lemma_idle_skipped(s);
    assert forall|i: int| 0 <= i < s.len() implies s[i] != '\\' by {
        if !windows {
            assert(rest.contains(rest[i]));
        }
    }
    let t = if dir.last() == '/' {
        s
    } else {
        "/"@ + s
    };
    assert(p =~= dir + t);
    assert(idle_skipped(t) == s) by {
        if dir.last() != '/' {
            assert(t.skip(1) =~= s);
        }
    }
    assert(p[0] == dir[0]);
    if dir.len() > 1 {
        assert(p[1] == dir[1]);
    } else {
        assert(p[1] == t[0]);
    }
    lemma_names_below(dir, t);
    assert(!s.contains('\\'));
    lemma_replace_absent(s);
}

/// A path that was formed by joining a name onto a directory is that name,
/// seen from the directory. The name must have no separator and no name `.` at
/// either end, and no `\`, which is written as `/`. On Windows neither may the name
/// begin with a drive, nor be the directory a drive alone, or verbatim.
pub proof fn law_rel_of_join(windows: bool, root: Seq<char>, name: Seq<char>)
    requires
        root.len() > 0,
        name.len() > 0,
        idle_skipped(name) == name,
        idle_dropped(name) == name,
        !name.contains('\\'),
        windows ==> !has_drive(name) && !(root.len() == 2 && has_drive(root)) && !is_verbatim(root),
    ensures
        path_rel(windows, root, path_joined(windows, root, name)) == name,
{
    lemma_idle_skipped(name);
    assert(name[0] != '\\') by {
        assert(name.contains(name[0]));
    }
    lemma_replace_absent(name);
    lemma_rel_below(windows, root, name);
    assert(path_joined(windows, root, name) =~= up_to_name(windows, root) + name);
}

/// Where `/` stands for `\`, every other character stays.
pub proof fn lemma_slashed(s: Seq<char>)
    ensures
        replaced(s, "\\"@, "/"@) == Seq::new(
            s.len(),
            |i: int|
                if s[i] == '\\' {
                    '/'
                } else {
                    s[i]
                },
        ),
    decreases s.len(),
{
    reveal_strlit("/");
    reveal_strlit("\\");
    let r = replaced(s, "\\"@, "/"@);
    if s.len() > 0 {
        lemma_slashed(s.skip(1));
        if s[0] == '\\' {
            assert(s.take(1) =~= "\\"@);
        } else {
            assert(s.take(1)[0] == s[0]);
        }
        assert(r.len() == s.len());
        assert forall|i: int| 0 <= i < s.len() implies r[i] == (if s[i] == '\\' {
            '/'
        } else {
            s[i]
        }) by {
            if i > 0 {
                assert(s.skip(1)[i - 1] == s[i]);
            }
        }
    }
}

/// A text without `\` has none to replace.
proof fn lemma_replace_absent(s: Seq<char>)
    requires
        !s.contains('\\'),
    ensures
        replaced(s, "\\"@, "/"@) == s,
    decreases s.len(),
{
    reveal_strlit("\\");
    if s.len() > 0 {
        assert(s[0] != '\\');
        assert("\\"@[0] == '\\');
        assert(s.take(1)[0] == s[0]);
        let rest = s.drop_first();
        assert forall|i: int| 0 <= i < rest.len() implies rest[i] != '\\' by {
            assert(rest[i] == s[i + 1]);
        }
        lemma_replace_absent(rest);
        assert(seq![s[0]] + rest =~= s);
    }
}

/// Whether a text is a single name: it is not empty, holds no separator, is not one
/// that leads nowhere or up, and on Windows begins with no drive.
pub open spec fn is_name(windows: bool, name: Seq<char>) -> bool {
    &&& name.len() > 0 && !name.contains('/') && name != "."@ && name != ".."@
    &&& windows ==> !name.contains('\\') && !has_drive(name)
}

/// What a directory and a name make when the name is seen from the directory, without
/// the name.
pub open spec fn up_to_name(windows: bool, dir: Seq<char>) -> Seq<char> {
    if !windows {
        if dir.len() == 0 || dir.last() == '/' {
            dir
        } else {
            dir + "/"@
        }
    } else if is_verbatim(dir) {
        let n = verbatim_len(dir);
        let rooted = n < dir.len() && is_separator(dir[n]);
        let from = proper_names(
            split_at_char(
                dir.skip(
                    if rooted {
                        n + 1
                    } else {
                        n
                    },
                ),
                '\\',
            ),
        );
        dir.take(n) + "\\"@ + (if from.len() > 0 {
            joined(from, "\\"@) + "\\"@
        } else {
            seq![]
        })
    } else if dir.len() == 0 || is_separator(dir.last()) || dir.len() == 2 && has_drive(dir) {
        dir
    } else {
        dir + "\\"@
    }
}

/// A name, seen from a directory.
pub proof fn lemma_name_joined(windows: bool, dir: Seq<char>, name: Seq<char>)
    requires
        is_name(windows, name),
    ensures
        path_joined(windows, dir, name) == up_to_name(windows, dir) + name,
{
    assert(name.contains(name[0]));
    if windows {
        assert(!is_separator(name[0]));
        assert(prefix_len(name) == 0);
    }
    if windows && is_verbatim(dir) {
        lemma_slashed(name);
        assert forall|i: int| 0 <= i < name.len() implies name[i] != '\\' && name[i] != '/' by {
            assert(name.contains(name[i]));
        }
        assert(slashed(true, name) =~= name);
        lemma_before_is(name, '/', name.len() as int);
        let one = seq![name];
        assert(split_at_char(name, '/') == one);
        let n = verbatim_len(dir);
        let rooted = n < dir.len() && is_separator(dir[n]);
        let from = proper_names(
            split_at_char(
                dir.skip(
                    if rooted {
                        n + 1
                    } else {
                        n
                    },
                ),
                '\\',
            ),
        );
        assert(one.drop_first() =~= seq![]);
        assert(entered(one, from) == entered(one.drop_first(), from.push(name)));
        assert(entered(one, from) == from.push(name));
        assert(from.push(name).drop_last() =~= from);
        assert(path_joined(windows, dir, name) =~= up_to_name(windows, dir) + name);
    } else {
        assert(path_joined(windows, dir, name) =~= up_to_name(windows, dir) + name);
    }
}

/// Different names lie at different paths in a directory.
pub proof fn lemma_joined_differs(windows: bool, dir: Seq<char>, a: Seq<char>, b: Seq<char>)
    requires
        a != b,
        is_name(windows, a),
        is_name(windows, b),
    ensures
        path_joined(windows, dir, a) != path_joined(windows, dir, b),
{
    lemma_name_joined(windows, dir, a);
    lemma_name_joined(windows, dir, b);
    let u = up_to_name(windows, dir);
    assert((u + a).skip(u.len() as int) =~= a);
    assert((u + b).skip(u.len() as int) =~= b);
}

} // verus!
