//! The paths below a directory, name by name.
use crate::config::HOOKS_DIR;
use crate::paths::{
    has_drive, is_name, is_verbatim, lemma_name_joined, lemma_rel_below, lemma_slashed, path_joined,
    path_rel, slashed, up_to_name,
};
use vstd::prelude::*;

verus! {

/// Whether all texts are single names.
pub open spec fn all_names(windows: bool, names: Seq<Seq<char>>) -> bool {
    forall|i: int| 0 <= i < names.len() ==> is_name(windows, #[trigger] names[i])
}

/// The path that names lead to from a directory, one after the other.
pub open spec fn descended(windows: bool, dir: Seq<char>, names: Seq<Seq<char>>) -> Seq<char>
    decreases names.len(),
{
    if names.len() == 0 {
        dir
    } else {
        path_joined(windows, descended(windows, dir, names.drop_last()), names.last())
    }
}

/// Whether names lead to a path from a directory.
pub open spec fn lead_to(
    windows: bool,
    dir: Seq<char>,
    names: Seq<Seq<char>>,
    path: Seq<char>,
) -> bool {
    names.len() > 0 && all_names(windows, names) && path == descended(windows, dir, names)
}

/// Whether a path lies below a directory, at any depth.
pub open spec fn lies_under(windows: bool, dir: Seq<char>, path: Seq<char>) -> bool {
    exists|names: Seq<Seq<char>>| lead_to(windows, dir, names, path)
}

/// Whether a directory ends in a name. It is neither verbatim nor close to it.
pub open spec fn ends_in_name(windows: bool, dir: Seq<char>) -> bool {
    &&& dir.len() > 3 && dir.last() != '/'
    &&& windows ==> dir.last() != '\\' && !is_verbatim(dir)
}

/// Names with a separator before each.
pub open spec fn tail(sep: char, names: Seq<Seq<char>>) -> Seq<char>
    decreases names.len(),
{
    if names.len() == 0 {
        seq![]
    } else {
        tail(sep, names.drop_last()).push(sep) + names.last()
    }
}

/// The character between names.
pub open spec fn separator(windows: bool) -> char {
    if windows {
        '\\'
    } else {
        '/'
    }
}

/// What names lead to is the directory with the names behind it.
pub proof fn lemma_descended(windows: bool, dir: Seq<char>, names: Seq<Seq<char>>)
    requires
        ends_in_name(windows, dir),
        all_names(windows, names),
    ensures
        descended(windows, dir, names) == dir + tail(separator(windows), names),
        ends_in_name(windows, descended(windows, dir, names)),
    decreases names.len(),
{
    reveal_strlit("/");
    reveal_strlit("\\");
    if names.len() == 0 {
        assert(dir + tail(separator(windows), names) =~= dir);
    } else {
        let fewer = names.drop_last();
        let name = names.last();
        assert forall|i: int| 0 <= i < fewer.len() implies is_name(
            windows,
            #[trigger] fewer[i],
        ) by {
            assert(fewer[i] == names[i]);
        }
        lemma_descended(windows, dir, fewer);
        let d = descended(windows, dir, fewer);
        assert(is_name(windows, names[names.len() - 1]));
        lemma_name_joined(windows, d, name);
        assert(name.contains(name.last()));
        let r = descended(windows, dir, names);
        assert(r =~= d.push(separator(windows)) + name);
        assert(r =~= dir + tail(separator(windows), names));
        assert(r.last() == name.last());
        assert(r[0] == d[0] && r[1] == d[1] && r[2] == d[2] && r[3] == d[3]);
    }
}

/// Whether no name is empty or holds the separator.
pub open spec fn apart_by(sep: char, names: Seq<Seq<char>>) -> bool {
    forall|i: int|
        0 <= i < names.len() ==> (#[trigger] names[i]).len() > 0 && !names[i].contains(sep)
}

/// Different names make different paths.
pub proof fn lemma_tail_differs(sep: char, a: Seq<Seq<char>>, b: Seq<Seq<char>>)
    requires
        apart_by(sep, a),
        apart_by(sep, b),
        tail(sep, a) == tail(sep, b),
    ensures
        a == b,
    decreases a.len(),
{
    if a.len() == 0 || b.len() == 0 {
        assert(tail(sep, a).len() == 0 <==> a.len() == 0);
        assert(tail(sep, b).len() == 0 <==> b.len() == 0);
        assert(a =~= b);
    } else {
        let x = a.last();
        let y = b.last();
        let t = tail(sep, a);
        let s = tail(sep, a.drop_last());
        let u = tail(sep, b.drop_last());
        assert(x == a[a.len() - 1] && y == b[b.len() - 1]);
        assert(t == s.push(sep) + x);
        assert(t == u.push(sep) + y);
        assert(s.len() + 1 + x.len() == u.len() + 1 + y.len());
        if x.len() < y.len() {
            let i = s.len() - u.len() - 1;
            assert(t[s.len() as int] == sep);
            assert(y[i] == sep);
            assert(y.contains(y[i]));
        } else if y.len() < x.len() {
            let i = u.len() - s.len() - 1;
            assert(t[u.len() as int] == sep);
            assert(x[i] == sep);
            assert(x.contains(x[i]));
        }
        assert(s =~= t.take(s.len() as int));
        assert(u =~= t.take(u.len() as int));
        assert(x =~= t.skip(s.len() + 1int));
        assert(y =~= t.skip(u.len() + 1int));
        let c = a.drop_last();
        let d = b.drop_last();
        assert forall|i: int| 0 <= i < c.len() implies (#[trigger] c[i]).len() > 0
            && !c[i].contains(sep) by {
            assert(c[i] == a[i]);
        }
        assert forall|i: int| 0 <= i < d.len() implies (#[trigger] d[i]).len() > 0
            && !d[i].contains(sep) by {
            assert(d[i] == b[i]);
        }
        lemma_tail_differs(sep, c, d);
        assert(a =~= a.drop_last().push(x));
        assert(b =~= b.drop_last().push(y));
    }
}

/// Different names lead to different paths.
pub proof fn lemma_descended_differs(
    windows: bool,
    dir: Seq<char>,
    a: Seq<Seq<char>>,
    b: Seq<Seq<char>>,
)
    requires
        ends_in_name(windows, dir),
        all_names(windows, a),
        all_names(windows, b),
        descended(windows, dir, a) == descended(windows, dir, b),
    ensures
        a == b,
{
    let sep = separator(windows);
    lemma_descended(windows, dir, a);
    lemma_descended(windows, dir, b);
    let n = dir.len() as int;
    assert(tail(sep, a) =~= (dir + tail(sep, a)).skip(n));
    assert(tail(sep, b) =~= (dir + tail(sep, b)).skip(n));
    lemma_tail_differs(sep, a, b);
}

/// Whether a repository lies at a path that is no drive alone, and not verbatim.
pub open spec fn plain_root(windows: bool, root: Seq<char>) -> bool {
    &&& root.len() > 0
    &&& windows ==> !(root.len() == 2 && has_drive(root)) && !is_verbatim(root) && root
        != "\\\\?"@
}

/// The directory of hook scripts ends in a name.
pub proof fn lemma_hooks_dir(windows: bool, root: Seq<char>)
    requires
        plain_root(windows, root),
    ensures
        is_name(windows, HOOKS_DIR@),
        path_joined(windows, root, HOOKS_DIR@) == up_to_name(windows, root) + HOOKS_DIR@,
        ends_in_name(windows, path_joined(windows, root, HOOKS_DIR@)),
{
    reveal_strlit("/");
    reveal_strlit("\\");
    reveal_strlit(".");
    reveal_strlit("..");
    reveal_strlit("\\\\?");
    reveal_strlit(".githooks");
    assert(HOOKS_DIR@.len() == 9);
    assert(HOOKS_DIR@.last() == 's');
    lemma_name_joined(windows, root, HOOKS_DIR@);
    let d = path_joined(windows, root, HOOKS_DIR@);
    assert(d.last() == 's');
    if windows && is_verbatim(d) {
        if root.len() == 3 {
            assert(root =~= "\\\\?"@);
        } else if root.len() < 3 {
            assert(d[2] == '?');
        }
    }
}

/// Whether no name holds a `\`. On Windows none does.
pub open spec fn no_backslash(names: Seq<Seq<char>>) -> bool {
    forall|i: int| 0 <= i < names.len() ==> !(#[trigger] names[i]).contains('\\')
}

/// What a path below the directory of hook scripts is, seen from the repository.
pub proof fn lemma_rel(windows: bool, root: Seq<char>, names: Seq<Seq<char>>)
    requires
        plain_root(windows, root),
        all_names(windows, names),
        no_backslash(names),
    ensures
        path_rel(windows, root, descended(windows, path_joined(windows, root, HOOKS_DIR@), names))
            == HOOKS_DIR@ + tail('/', names),
{
    reveal_strlit(".githooks");
    reveal_strlit(".");
    let sep = separator(windows);
    let dir = path_joined(windows, root, HOOKS_DIR@);
    lemma_hooks_dir(windows, root);
    lemma_descended(windows, dir, names);
    let rest = HOOKS_DIR@ + tail(sep, names);
    let s = HOOKS_DIR@ + tail('/', names);
    lemma_slashed_tail(names);
    lemma_slashed(rest);
    assert(slashed(windows, rest) =~= s);
    assert(s[0] == '.' && s[1] == 'g');
    assert(s.last() != '/' && !(s.last() == '.' && s[s.len() - 2] == '/')) by {
        if names.len() > 0 {
            let name = names.last();
            assert(is_name(windows, names[names.len() - 1]));
            assert(name.contains(name.last()));
            assert(s.last() == name.last());
            if name.len() == 1 {
                assert(s[s.len() - 1] == name[0]);
                if name[0] == '.' {
                    assert(name =~= "."@);
                }
            } else {
                assert(s[s.len() - 2] == name[name.len() - 2]);
                assert(name.contains(name[name.len() - 2]));
            }
        } else {
            assert(s.last() == 's');
        }
    }
    if !windows {
        assert(!rest.contains('\\')) by {
            if rest.contains('\\') {
                let i = choose|i: int| 0 <= i < rest.len() && rest[i] == '\\';
                if i >= 9 {
                    assert(tail(sep, names)[i - 9] == '\\');
                }
            }
        }
    }
    lemma_rel_below(windows, root, rest);
    assert(descended(windows, dir, names) =~= up_to_name(windows, root) + rest);
}

/// Names without `\`, with either separator before each.
proof fn lemma_slashed_tail(names: Seq<Seq<char>>)
    requires
        no_backslash(names),
    ensures
        tail('\\', names).len() == tail('/', names).len(),
        forall|i: int|
            0 <= i < tail('/', names).len() ==> #[trigger] tail('/', names)[i] != '\\' && tail(
                '/',
                names,
            )[i] == (if tail('\\', names)[i] == '\\' {
                '/'
            } else {
                tail('\\', names)[i]
            }),
    decreases names.len(),
{
    if names.len() > 0 {
        let fewer = names.drop_last();
        let name = names.last();
        assert forall|i: int| 0 <= i < fewer.len() implies !(#[trigger] fewer[i]).contains(
            '\\',
        ) by {
            assert(fewer[i] == names[i]);
        }
        lemma_slashed_tail(fewer);
        assert(!names[names.len() - 1].contains('\\'));
        let a = tail('/', fewer);
        let b = tail('\\', fewer);
        assert forall|i: int| 0 <= i < name.len() implies #[trigger] name[i] != '\\' by {
            assert(name.contains(name[i]));
        }
        assert forall|i: int| 0 <= i < tail('/', names).len() implies #[trigger] tail(
            '/',
            names,
        )[i] != '\\' && tail('/', names)[i] == (if tail('\\', names)[i] == '\\' {
            '/'
        } else {
            tail('\\', names)[i]
        }) by {
            if i < a.len() {
                assert(tail('/', names)[i] == a[i]);
                assert(tail('\\', names)[i] == b[i]);
            } else if i > a.len() {
                assert(tail('/', names)[i] == name[i - a.len() - 1]);
                assert(tail('\\', names)[i] == name[i - a.len() - 1]);
            }
        }
    }
}

} // verus!
