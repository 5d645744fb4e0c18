//! What consent covers: the configuration, and the files below the directory of hook
//! scripts, each of them once.
use crate::config::{CONFIG_FILE, HOOKS_DIR};
use crate::content::{
    or_empty, paths_in, play_blobs, play_canonical_content, play_consent_hash,
    play_githooks_dir_files, play_hash_object, play_walk, under_trust,
};
use crate::git::play_repo_root;
use crate::keeping::{
    all_there, covered, covered_from, file_at, good_hash, honest, idles, kept_after, kept_at,
    law_canonical_text_tells_worlds_apart, law_consent_hash_tells_worlds_apart, lemma_blobs_told,
    lemma_canonical_told, lemma_consent_told, lemma_idles, lemma_options_differ, lemma_parts,
    lemma_walk_idles, lists, plain_names, tells, text_covered, yields_root, Kept,
};
use crate::order::{lemma_total, path_order, up_to};
use crate::paths::{is_name, path_joined, path_rel};
use crate::text::texts;
use crate::tree::{
    all_names, descended, lead_to, lemma_descended_differs, lemma_hooks_dir, lemma_rel,
    lemma_tail_differs, lies_under, plain_root, tail,
};
use crate::world::{asked_listing, Exchange, Outcome};
use vstd::prelude::*;
use vstd::relations::{sorted_by, total_ordering};

verus! {

/// Whether every file below a directory lies in directories that are there.
pub open spec fn is_tree(k: Kept, dir: Seq<char>) -> bool {
    forall|names: Seq<Seq<char>>, i: int|
        all_names(k.windows, names) && 0 < i < names.len() && k.files.contains_key(
            #[trigger] descended(k.windows, dir, names),
        ) ==> k.dirs.contains(#[trigger] descended(k.windows, dir, names.take(i)))
}

// ---------------------------------------------------------------------------
// Walking a directory finds every file once.
// ---------------------------------------------------------------------------

/// Whether a path begins with the names of another.
spec fn starts(p: Seq<Seq<char>>, q: Seq<Seq<char>>) -> bool {
    p.len() <= q.len() && q.take(p.len() as int) == p
}

/// Whether a path lies below another.
spec fn within(p: Seq<Seq<char>>, q: Seq<Seq<char>>) -> bool {
    p.len() < q.len() && starts(p, q)
}

/// The paths that names lead to.
spec fn places(windows: bool, dir: Seq<char>, list: Seq<Seq<Seq<char>>>) -> Seq<Seq<char>> {
    Seq::new(list.len(), |i: int| descended(windows, dir, list[i]))
}

/// Names, with one of a list behind them.
spec fn each_below(p: Seq<Seq<char>>, list: Seq<Seq<char>>) -> Seq<Seq<Seq<char>>> {
    Seq::new(list.len(), |i: int| p.push(list[i]))
}

/// Whether files that were found, and directories still to be listed, have nothing in
/// common.
spec fn disjoint(
    windows: bool,
    pending: Seq<Seq<Seq<char>>>,
    found: Seq<Seq<Seq<char>>>,
) -> bool {
    &&& forall|i: int| 0 <= i < pending.len() ==> all_names(windows, #[trigger] pending[i])
    &&& forall|i: int| 0 <= i < found.len() ==> all_names(windows, #[trigger] found[i])
    &&& found.no_duplicates()
    &&& forall|i: int, j: int|
        0 <= i < pending.len() && 0 <= j < pending.len() && i != j ==> !starts(
            #[trigger] pending[i],
            #[trigger] pending[j],
        )
    &&& forall|i: int, j: int|
        0 <= i < pending.len() && 0 <= j < found.len() ==> !within(
            #[trigger] pending[i],
            #[trigger] found[j],
        )
}

/// Whether names lead to a file below one of the directories.
spec fn is_below(
    k: Kept,
    dir: Seq<char>,
    pending: Seq<Seq<Seq<char>>>,
    names: Seq<Seq<char>>,
) -> bool {
    &&& all_names(k.windows, names)
    &&& k.files.contains_key(descended(k.windows, dir, names))
    &&& exists|i: int| 0 <= i < pending.len() && within(#[trigger] pending[i], names)
}

/// Names with one more behind them.
proof fn lemma_push(p: Seq<Seq<char>>, name: Seq<char>, q: Seq<Seq<char>>)
    ensures
        within(p, p.push(name)),
        starts(p.push(name), q) <==> within(p, q) && q[p.len() as int] == name,
        starts(q, p.push(name)) ==> starts(q, p) || q == p.push(name),
        within(q, p.push(name)) ==> starts(q, p),
        starts(p, q) && p.len() == q.len() ==> p == q,
{
    let n = p.len() as int;
    let m = q.len() as int;
    let r = p.push(name);
    assert(r.take(n) =~= p);
    if starts(r, q) {
        assert(q.take(n) =~= r.take(n));
        assert(q.take(n + 1)[n] == name);
    }
    if within(p, q) && q[n] == name {
        assert(q.take(n + 1) =~= r) by {
            assert forall|i: int| 0 <= i < n implies q[i] == r[i] by {
                assert(q.take(n)[i] == p[i]);
            }
        }
    }
    if starts(q, r) {
        if m <= n {
            assert(r.take(m) =~= p.take(m));
        } else {
            assert(r.take(m) =~= r);
        }
    }
    assert(q.take(m) =~= q);
}

/// A directory is listed: what was in it comes in its place.
proof fn lemma_listed(
    windows: bool,
    pending: Seq<Seq<Seq<char>>>,
    found: Seq<Seq<Seq<char>>>,
    dirs: Seq<Seq<char>>,
    files: Seq<Seq<char>>,
)
    requires
        pending.len() > 0,
        disjoint(windows, pending, found),
        dirs.no_duplicates(),
        files.no_duplicates(),
        all_names(windows, dirs),
        all_names(windows, files),
    ensures
        disjoint(
            windows,
            pending.drop_last() + each_below(pending.last(), dirs),
            found + each_below(pending.last(), files),
        ),
{
    let p = pending.last();
    let m = pending.len() - 1;
    let n = found.len() as int;
    assert(p == pending[m]);
    let pending2 = pending.drop_last() + each_below(p, dirs);
    let found2 = found + each_below(p, files);
    assert forall|i: int| 0 <= i < pending2.len() implies all_names(
        windows,
        #[trigger] pending2[i],
    ) by {
        if i < m {
            assert(pending2[i] == pending[i]);
        } else {
            assert(pending2[i] == p.push(dirs[i - m]));
        }
    }
    assert forall|i: int| 0 <= i < found2.len() implies all_names(
        windows,
        #[trigger] found2[i],
    ) by {
        if i < n {
            assert(found2[i] == found[i]);
        } else {
            assert(found2[i] == p.push(files[i - n]));
        }
    }
    assert forall|i: int, j: int| 0 <= i < found2.len() && 0 <= j < found2.len() && i != j implies
        found2[i] != found2[j] by {
        if i < n && j < n {
            assert(found[i] != found[j]);
        } else if i < n {
            lemma_push(p, files[j - n], found[i]);
            assert(!within(pending[m], found[i]));
        } else if j < n {
            lemma_push(p, files[i - n], found[j]);
            assert(!within(pending[m], found[j]));
        } else {
            assert(found2[i].last() == files[i - n]);
            assert(found2[j].last() == files[j - n]);
        }
    }
    assert forall|i: int, j: int|
        0 <= i < pending2.len() && 0 <= j < pending2.len() && i != j implies !starts(
        #[trigger] pending2[i],
        #[trigger] pending2[j],
    ) by {
        if i < m && j < m {
            assert(!starts(pending[i], pending[j]));
        } else if i < m {
            lemma_push(p, dirs[j - m], pending[i]);
            assert(!starts(pending[i], pending[m]));
            assert(!starts(pending[m], pending[i]));
        } else if j < m {
            lemma_push(p, dirs[i - m], pending[j]);
            assert(!starts(pending[m], pending[j]));
        } else {
            lemma_push(p, dirs[i - m], pending2[j]);
            assert(pending2[j][p.len() as int] == dirs[j - m]);
        }
    }
    assert forall|i: int, j: int|
        0 <= i < pending2.len() && 0 <= j < found2.len() implies !within(
        #[trigger] pending2[i],
        #[trigger] found2[j],
    ) by {
        if i < m && j < n {
            assert(!within(pending[i], found[j]));
        } else if i < m {
            lemma_push(p, files[j - n], pending[i]);
            assert(!starts(pending[i], pending[m]));
        } else if j < n {
            lemma_push(p, dirs[i - m], found[j]);
            assert(!within(pending[m], found[j]));
        }
    }
}

/// Which files are below the directories does not change when one of them is listed,
/// but for those that lie in it.
proof fn lemma_below_listed(
    k: Kept,
    dir: Seq<char>,
    pending: Seq<Seq<Seq<char>>>,
    dirs: Seq<Seq<char>>,
    files: Seq<Seq<char>>,
    names: Seq<Seq<char>>,
)
    requires
        pending.len() > 0,
        is_tree(k, dir),
        lists(k, descended(k.windows, dir, pending.last()), dirs, files),
        all_names(k.windows, pending.last()),
    ensures
        is_below(k, dir, pending, names) <==> each_below(pending.last(), files).contains(names)
            || is_below(k, dir, pending.drop_last() + each_below(pending.last(), dirs), names),
{
    let p = pending.last();
    let m = pending.len() - 1;
    let n = p.len() as int;
    assert(p == pending[m]);
    let d = descended(k.windows, dir, p);
    let pending2 = pending.drop_last() + each_below(p, dirs);
    let here = each_below(p, files);
    if is_below(k, dir, pending, names) {
        let i = choose|i: int| 0 <= i < pending.len() && within(#[trigger] pending[i], names);
        if i < m {
            assert(pending2[i] == pending[i]);
        } else {
            let name = names[n];
            assert(is_name(k.windows, name));
            lemma_push(p, name, names);
            assert(p.push(name).drop_last() =~= p);
            assert(descended(k.windows, dir, p.push(name)) == path_joined(k.windows, d, name));
            if names.len() == n + 1 {
                assert(names =~= p.push(name)) by {
                    assert(names.take(n + 1) =~= names);
                }
                assert(files.contains(name));
                let j = choose|j: int| 0 <= j < files.len() && files[j] == name;
                assert(here[j] == names);
            } else {
                assert(names.take(n + 1) == p.push(name));
                assert(k.dirs.contains(descended(k.windows, dir, names.take(n + 1))));
                assert(dirs.contains(name));
                let j = choose|j: int| 0 <= j < dirs.len() && dirs[j] == name;
                assert(pending2[m + j] == p.push(name));
            }
        }
    }
    if here.contains(names) {
        let j = choose|j: int| 0 <= j < here.len() && here[j] == names;
        let name = files[j];
        assert(files.contains(name));
        lemma_push(p, name, names);
        assert(p.push(name).drop_last() =~= p);
        assert forall|i: int| 0 <= i < names.len() implies is_name(
            k.windows,
            #[trigger] names[i],
        ) by {
            if i < n {
                assert(names[i] == p[i]);
            }
        }
    }
    if is_below(k, dir, pending2, names) {
        let i = choose|i: int| 0 <= i < pending2.len() && within(#[trigger] pending2[i], names);
        if i < m {
            assert(pending2[i] == pending[i]);
        } else {
            lemma_push(p, dirs[i - m], names);
            assert(within(pending[m], names));
        }
    }
}

/// What walking directories finds: each file below them once, and nothing else.
proof fn lemma_walked(
    k: Kept,
    log: Seq<Exchange>,
    at: int,
    dir: Seq<char>,
    pending: Seq<Seq<Seq<char>>>,
    found: Seq<Seq<Seq<char>>>,
    result: Seq<Seq<char>>,
    to: int,
) -> (all: Seq<Seq<Seq<char>>>)
    requires
        0 <= at <= log.len(),
        is_tree(k, dir),
        disjoint(k.windows, pending, found),
        play_walk(
            k.windows,
            log,
            at,
            places(k.windows, dir, pending),
            places(k.windows, dir, found),
        ) == Outcome::Done(result, to),
        forall|i: int| at <= i < to ==> tells(k, #[trigger] log[i]),
    ensures
        result == places(k.windows, dir, all),
        all.no_duplicates(),
        forall|names: Seq<Seq<char>>| #[trigger]
            all.contains(names) <==> found.contains(names) || is_below(k, dir, pending, names),
        forall|i: int| 0 <= i < all.len() ==> all_names(k.windows, #[trigger] all[i]),
    decreases log.len() - at, pending.len(),
{
    let w = k.windows;
    if pending.len() == 0 {
        found
    } else {
        let p = pending.last();
        let m = pending.len() - 1;
        assert(p == pending[m]);
        let d = descended(w, dir, p);
        assert(places(w, dir, pending).last() == d);
        let (dirs, files) = asked_listing(log, at, d)->Done_0;
        lemma_walk_idles(
            w,
            log,
            at + 1,
            places(w, dir, pending).drop_last() + paths_in(w, d, dirs),
            places(w, dir, found) + paths_in(w, d, files),
        );
        assert(tells(k, log[at]));
        assert(texts(log[at].request.words@)[0] == d);
        let pending2 = pending.drop_last() + each_below(p, dirs);
        let found2 = found + each_below(p, files);
        assert(places(w, dir, pending2) =~= places(w, dir, pending).drop_last() + paths_in(
            w,
            d,
            dirs,
        )) by {
            assert forall|i: int| 0 <= i < dirs.len() implies descended(
                w,
                dir,
                p.push(#[trigger] dirs[i]),
            ) == path_joined(w, d, dirs[i]) by {
                assert(p.push(dirs[i]).drop_last() =~= p);
            }
        }
        assert(places(w, dir, found2) =~= places(w, dir, found) + paths_in(w, d, files)) by {
            assert forall|i: int| 0 <= i < files.len() implies descended(
                w,
                dir,
                p.push(#[trigger] files[i]),
            ) == path_joined(w, d, files[i]) by {
                assert(p.push(files[i]).drop_last() =~= p);
            }
        }
        assert forall|i: int| 0 <= i < dirs.len() implies is_name(
            w,
            #[trigger] dirs[i],
        ) by {
            assert(dirs.contains(dirs[i]));
        }
        assert forall|i: int| 0 <= i < files.len() implies is_name(
            w,
            #[trigger] files[i],
        ) by {
            assert(files.contains(files[i]));
        }
        lemma_listed(w, pending, found, dirs, files);
        let all = lemma_walked(k, log, at + 1, dir, pending2, found2, result, to);
        assert forall|names: Seq<Seq<char>>| #[trigger]
            all.contains(names) <==> found.contains(names) || is_below(
            k,
            dir,
            pending,
            names,
        ) by {
            lemma_below_listed(k, dir, pending, dirs, files, names);
            let here = each_below(p, files);
            if found.contains(names) {
                let i = choose|i: int| 0 <= i < found.len() && found[i] == names;
                assert(found2[i] == names);
            }
            if here.contains(names) {
                let i = choose|i: int| 0 <= i < here.len() && here[i] == names;
                assert(found2[found.len() + i] == names);
            }
            if found2.contains(names) {
                let i = choose|i: int| 0 <= i < found2.len() && found2[i] == names;
                if i < found.len() {
                    assert(found[i] == names);
                } else {
                    assert(here[i - found.len()] == names);
                }
            }
        }
        all
    }
}

/// Walking the directory of hook scripts finds exactly the files below it, at any depth,
/// each of them once, and in the order of paths. Nothing changes by it.
pub proof fn law_every_file_is_found_once(
    k: Kept,
    log: Seq<Exchange>,
    at: int,
    root: Seq<char>,
    files: Seq<Seq<char>>,
    to: int,
)
    requires
        0 <= at <= log.len(),
        plain_root(k.windows, root),
        is_tree(k, path_joined(k.windows, root, HOOKS_DIR@)),
        play_githooks_dir_files(k.windows, log, at, root) == Outcome::Done(files, to),
        honest(k, log, at, to),
    ensures
        files.no_duplicates(),
        forall|path: Seq<char>| #[trigger]
            files.contains(path) <==> k.files.contains_key(path) && lies_under(
                k.windows,
                path_joined(k.windows, root, HOOKS_DIR@),
                path,
            ),
        sorted_by(files, up_to(path_order(k.windows))),
        kept_at(k, log, at, to) == k,
{
    broadcast use vstd::seq_lib::group_to_multiset_ensures;
    broadcast use vstd::multiset::group_multiset_axioms;

    let w = k.windows;
    let dir = path_joined(w, root, HOOKS_DIR@);
    let order = up_to(path_order(w));
    let pending: Seq<Seq<Seq<char>>> = seq![seq![]];
    let found: Seq<Seq<Seq<char>>> = seq![];
    lemma_hooks_dir(w, root);
    assert(places(w, dir, pending) =~= seq![dir]);
    assert(places(w, dir, found) =~= seq![]);
    lemma_walk_idles(w, log, at, seq![dir], seq![]);
    lemma_idles(k, log, at, to);
    let walked = play_walk(w, log, at, seq![dir], seq![])->Done_0;
    let all = lemma_walked(k, log, at, dir, pending, found, walked, to);
    assert forall|i: int, j: int| 0 <= i < walked.len() && 0 <= j < walked.len() && i != j implies
        walked[i] != walked[j] by {
        if walked[i] == walked[j] {
            lemma_descended_differs(w, dir, all[i], all[j]);
        }
    }
    lemma_total(path_order(w));
    walked.lemma_sort_by_ensures(order);
    walked.lemma_multiset_has_no_duplicates();
    files.lemma_multiset_has_no_duplicates_conv();
    assert forall|path: Seq<char>| #[trigger]
        files.contains(path) <==> k.files.contains_key(path) && lies_under(w, dir, path) by {
        assert(files.contains(path) <==> files.to_multiset().count(path) > 0);
        assert(walked.contains(path) <==> walked.to_multiset().count(path) > 0);
        if walked.contains(path) {
            let i = choose|i: int| 0 <= i < walked.len() && walked[i] == path;
            assert(all.contains(all[i]));
            let names = all[i];
            assert(lead_to(w, dir, names, path)) by {
                let j = choose|j: int|
                    0 <= j < pending.len() && within(#[trigger] pending[j], names);
            }
        }
        if k.files.contains_key(path) && lies_under(w, dir, path) {
            let names = choose|names: Seq<Seq<char>>| lead_to(w, dir, names, path);
            assert(names.take(0) =~= pending[0]);
            assert(within(pending[0], names));
            assert(is_below(k, dir, pending, names));
            assert(all.contains(names));
            let i = choose|i: int| 0 <= i < all.len() && all[i] == names;
            assert(walked[i] == path);
        }
    }
}

// ---------------------------------------------------------------------------
// The same files make for the same content.
// ---------------------------------------------------------------------------

/// Whether no name of a path holds a `\`, a line feed or a tab.
pub open spec fn plain(names: Seq<Seq<char>>) -> bool {
    forall|i: int|
        0 <= i < names.len() ==> !(#[trigger] names[i]).contains('\\') && !names[i].contains('\n')
            && !names[i].contains('\t')
}

/// Whether a repository is there as repositories are: the files of its hooks lie in
/// directories, and their names are plain.
pub open spec fn is_fair(k: Kept, root: Seq<char>) -> bool {
    &&& plain_root(k.windows, root)
    &&& is_tree(k, path_joined(k.windows, root, HOOKS_DIR@))
    &&& forall|names: Seq<Seq<char>>|
        all_names(k.windows, names) && k.files.contains_key(
            #[trigger] descended(k.windows, path_joined(k.windows, root, HOOKS_DIR@), names),
        ) ==> plain(names)
}

/// Whether a file is left out of what is signed.
pub open spec fn left_out(
    windows: bool,
    root: Seq<char>,
    exclude_trust: bool,
    path: Seq<char>,
) -> bool {
    exclude_trust && under_trust(path_rel(windows, root, path))
}

/// Whether the content of a repository is the same in two worlds: the configuration, and
/// every file below the directory of hook scripts, or every one that is signed.
pub open spec fn same_content(k: Kept, k2: Kept, root: Seq<char>, exclude_trust: bool) -> bool {
    &&& file_at(k, path_joined(k.windows, root, CONFIG_FILE@)) == file_at(
        k2,
        path_joined(k.windows, root, CONFIG_FILE@),
    )
    &&& forall|path: Seq<char>| #[trigger]
        lies_under(k.windows, path_joined(k.windows, root, HOOKS_DIR@), path) && !left_out(
            k.windows,
            root,
            exclude_trust,
            path,
        ) ==> file_at(k, path) == file_at(k2, path)
}

/// Files from the `i`-th on, without those that are left out.
spec fn remaining(
    windows: bool,
    root: Seq<char>,
    files: Seq<Seq<char>>,
    exclude_trust: bool,
    i: int,
) -> Seq<Seq<char>>
    decreases files.len() - i,
{
    if i >= files.len() {
        seq![]
    } else if left_out(windows, root, exclude_trust, files[i]) {
        remaining(windows, root, files, exclude_trust, i + 1)
    } else {
        seq![files[i]] + remaining(windows, root, files, exclude_trust, i + 1)
    }
}

/// Files with their names, seen from the repository, and their texts.
spec fn with_texts(
    windows: bool,
    k: Kept,
    root: Seq<char>,
    files: Seq<Seq<char>>,
) -> Seq<(Seq<char>, Seq<char>)> {
    Seq::new(files.len(), |i: int| (path_rel(windows, root, files[i]), k.files[files[i]]))
}

/// What a list holds with one more text at its front.
proof fn lemma_first_or_later(first: Seq<char>, later: Seq<Seq<char>>, path: Seq<char>)
    ensures
        (seq![first] + later).contains(path) <==> path == first || later.contains(path),
{
    let all = seq![first] + later;
    if all.contains(path) {
        let j = choose|j: int| 0 <= j < all.len() && all[j] == path;
        if j > 0 {
            assert(later[j - 1] == path);
        }
    }
    if later.contains(path) {
        let j = choose|j: int| 0 <= j < later.len() && later[j] == path;
        assert(all[j + 1] == path);
    }
    assert(all[0] == first);
}

/// What is covered are the files that remain, in order.
proof fn lemma_remaining(
    windows: bool,
    k: Kept,
    root: Seq<char>,
    files: Seq<Seq<char>>,
    exclude_trust: bool,
    leq: spec_fn(Seq<char>, Seq<char>) -> bool,
    i: int,
)
    requires
        0 <= i <= files.len(),
        files.no_duplicates(),
        sorted_by(files, leq),
    ensures
        covered_from(windows, k, root, files, exclude_trust, i) == with_texts(
            windows,
            k,
            root,
            remaining(windows, root, files, exclude_trust, i),
        ),
        remaining(windows, root, files, exclude_trust, i).no_duplicates(),
        sorted_by(remaining(windows, root, files, exclude_trust, i), leq),
        forall|path: Seq<char>| #[trigger]
            remaining(windows, root, files, exclude_trust, i).contains(path) <==> files.skip(
                i,
            ).contains(path) && !left_out(windows, root, exclude_trust, path),
    decreases files.len() - i,
{
    let all = remaining(windows, root, files, exclude_trust, i);
    if i < files.len() {
        lemma_remaining(windows, k, root, files, exclude_trust, leq, i + 1);
        let rest = remaining(windows, root, files, exclude_trust, i + 1);
        let first = files[i];
        let here = files.skip(i);
        let later = files.skip(i + 1);
        assert(here =~= seq![first] + later);
        assert forall|j: int| 0 <= j < rest.len() implies (#[trigger] rest[j]) != first && leq(
            first,
            rest[j],
        ) by {
            assert(rest.contains(rest[j]));
            let m = choose|m: int|
                0 <= m < later.len() && later[m] == rest[j];
            assert(files[i + 1 + m] == rest[j]);
        }
        if !left_out(windows, root, exclude_trust, first) {
            assert(all == seq![first] + rest);
            assert(with_texts(windows, k, root, all) =~= seq![
                (path_rel(windows, root, first), k.files[first]),
            ] + with_texts(windows, k, root, rest));
        }
        assert forall|path: Seq<char>| #[trigger]
            all.contains(path) <==> here.contains(path) && !left_out(
            windows,
            root,
            exclude_trust,
            path,
        ) by {
            lemma_first_or_later(first, later, path);
            lemma_first_or_later(first, rest, path);
            assert(rest.contains(path) <==> later.contains(path) && !left_out(
                windows,
                root,
                exclude_trust,
                path,
            ));
        }
    } else {
        assert(files.skip(i) =~= seq![]);
        assert(with_texts(windows, k, root, all) =~= seq![]);
    }
}

/// Names that hold no character make a path that holds it neither.
proof fn lemma_tail_without(sep: char, names: Seq<Seq<char>>, c: char)
    requires
        c != sep,
        forall|i: int| 0 <= i < names.len() ==> !(#[trigger] names[i]).contains(c),
    ensures
        !tail(sep, names).contains(c),
    decreases names.len(),
{
    if names.len() > 0 {
        let fewer = names.drop_last();
        assert forall|i: int| 0 <= i < fewer.len() implies !(#[trigger] fewer[i]).contains(c) by {
            assert(fewer[i] == names[i]);
        }
        lemma_tail_without(sep, fewer, c);
        assert(!names[names.len() - 1].contains(c));
        let t = tail(sep, names);
        let n = tail(sep, fewer).len() as int;
        if t.contains(c) {
            let i = choose|i: int| 0 <= i < t.len() && t[i] == c;
            if i < n {
                assert(tail(sep, fewer)[i] == c);
            } else if i > n {
                assert(names.last()[i - n - 1] == c);
            }
        }
    }
}

/// The name of a file of the hooks, seen from the repository: it begins with a dot, and
/// keeps to one line.
pub proof fn lemma_fair_name(k: Kept, root: Seq<char>, path: Seq<char>)
    requires
        is_fair(k, root),
        k.files.contains_key(path),
        lies_under(k.windows, path_joined(k.windows, root, HOOKS_DIR@), path),
    ensures
        path_rel(k.windows, root, path).len() > 0,
        path_rel(k.windows, root, path)[0] == '.',
        !path_rel(k.windows, root, path).contains('\n'),
        !path_rel(k.windows, root, path).contains('\t'),
{
    reveal_strlit(".githooks");
    let w = k.windows;
    let dir = path_joined(w, root, HOOKS_DIR@);
    let names = choose|names: Seq<Seq<char>>| lead_to(w, dir, names, path);
    assert(plain(names));
    lemma_rel(w, root, names);
    lemma_tail_without('/', names, '\n');
    lemma_tail_without('/', names, '\t');
    let t = tail('/', names);
    let r = HOOKS_DIR@ + t;
    assert(HOOKS_DIR@ == ".githooks"@);
    if r.contains('\n') {
        let i = choose|i: int| 0 <= i < r.len() && r[i] == '\n';
        assert(t[i - 9] == '\n');
    }
    if r.contains('\t') {
        let i = choose|i: int| 0 <= i < r.len() && r[i] == '\t';
        assert(t[i - 9] == '\t');
    }
}

/// Different files of the hooks have different names, seen from the repository.
pub proof fn lemma_rel_differs(k: Kept, k2: Kept, root: Seq<char>, a: Seq<char>, b: Seq<char>)
    requires
        is_fair(k, root),
        is_fair(k2, root),
        k2.windows == k.windows,
        k.files.contains_key(a),
        k2.files.contains_key(b),
        lies_under(k.windows, path_joined(k.windows, root, HOOKS_DIR@), a),
        lies_under(k.windows, path_joined(k.windows, root, HOOKS_DIR@), b),
        path_rel(k.windows, root, a) == path_rel(k.windows, root, b),
    ensures
        a == b,
{
    let w = k.windows;
    let dir = path_joined(w, root, HOOKS_DIR@);
    let x = choose|names: Seq<Seq<char>>| lead_to(w, dir, names, a);
    let y = choose|names: Seq<Seq<char>>| lead_to(w, dir, names, b);
    assert(plain(x) && plain(y));
    lemma_rel(w, root, x);
    lemma_rel(w, root, y);
    let n = HOOKS_DIR@.len() as int;
    assert(tail('/', x) =~= (HOOKS_DIR@ + tail('/', x)).skip(n));
    assert(tail('/', y) =~= (HOOKS_DIR@ + tail('/', y)).skip(n));
    lemma_tail_differs('/', x, y);
}

/// Files in order, each once, are told by which they are.
pub proof fn lemma_same_files(
    a: Seq<Seq<char>>,
    b: Seq<Seq<char>>,
    leq: spec_fn(Seq<char>, Seq<char>) -> bool,
)
    requires
        a.no_duplicates(),
        b.no_duplicates(),
        sorted_by(a, leq),
        sorted_by(b, leq),
        total_ordering(leq),
        forall|path: Seq<char>| #[trigger] a.contains(path) <==> b.contains(path),
    ensures
        a == b,
{
    broadcast use vstd::seq_lib::group_to_multiset_ensures;
    broadcast use vstd::multiset::group_multiset_axioms;

    a.lemma_multiset_has_no_duplicates();
    b.lemma_multiset_has_no_duplicates();
    assert forall|path: Seq<char>| #[trigger]
        a.to_multiset().count(path) == b.to_multiset().count(path) by {
        assert(a.contains(path) <==> a.to_multiset().count(path) > 0);
        assert(b.contains(path) <==> b.to_multiset().count(path) > 0);
        assert(a.contains(path) <==> b.contains(path));
        if a.contains(path) {
            assert(a.to_multiset().contains(path));
            assert(b.to_multiset().contains(path));
        }
    }
    assert(a.to_multiset() =~= b.to_multiset());
    vstd::seq_lib::lemma_sorted_unique(a, b, leq);
}

/// What is covered is the same in two worlds exactly when the content is.
pub proof fn lemma_covered_is_content(
    k: Kept,
    k2: Kept,
    root: Seq<char>,
    files: Seq<Seq<char>>,
    files2: Seq<Seq<char>>,
    exclude_trust: bool,
)
    requires
        is_fair(k, root),
        is_fair(k2, root),
        k2.windows == k.windows,
        files.no_duplicates(),
        files2.no_duplicates(),
        sorted_by(files, up_to(path_order(k.windows))),
        sorted_by(files2, up_to(path_order(k.windows))),
        forall|path: Seq<char>| #[trigger]
            files.contains(path) <==> k.files.contains_key(path) && lies_under(
                k.windows,
                path_joined(k.windows, root, HOOKS_DIR@),
                path,
            ),
        forall|path: Seq<char>| #[trigger]
            files2.contains(path) <==> k2.files.contains_key(path) && lies_under(
                k.windows,
                path_joined(k.windows, root, HOOKS_DIR@),
                path,
            ),
    ensures
        covered(k.windows, k, root, files, exclude_trust) == covered(
            k.windows,
            k2,
            root,
            files2,
            exclude_trust,
        ) <==> same_content(k, k2, root, exclude_trust),
{
    let w = k.windows;
    let dir = path_joined(w, root, HOOKS_DIR@);
    let leq = up_to(path_order(w));
    lemma_total(path_order(w));
    lemma_remaining(w, k, root, files, exclude_trust, leq, 0);
    lemma_remaining(w, k2, root, files2, exclude_trust, leq, 0);
    assert(files.skip(0) =~= files);
    assert(files2.skip(0) =~= files2);
    let a = remaining(w, root, files, exclude_trust, 0);
    let b = remaining(w, root, files2, exclude_trust, 0);
    let x = with_texts(w, k, root, a);
    let y = with_texts(w, k2, root, b);
    if x == y {
        assert(a.len() == x.len() && b.len() == y.len());
        assert forall|i: int| 0 <= i < a.len() implies #[trigger] a[i] == b[i] && k.files[a[i]]
            == k2.files[b[i]] by {
            assert(x[i] == y[i]);
            assert(a.contains(a[i]) && b.contains(b[i]));
            assert(files.contains(a[i]) && files2.contains(b[i]));
            lemma_rel_differs(k, k2, root, a[i], b[i]);
        }
        assert forall|path: Seq<char>| #[trigger]
            lies_under(w, dir, path) && !left_out(w, root, exclude_trust, path) implies file_at(
            k,
            path,
        ) == file_at(k2, path) by {
            assert(files.contains(path) <==> k.files.contains_key(path));
            assert(files2.contains(path) <==> k2.files.contains_key(path));
            assert(a.contains(path) <==> files.contains(path));
            assert(b.contains(path) <==> files2.contains(path));
            if a.contains(path) {
                let i = choose|i: int| 0 <= i < a.len() && a[i] == path;
                assert(b[i] == a[i]);
                assert(b.contains(b[i]));
            }
            if b.contains(path) {
                let i = choose|i: int| 0 <= i < b.len() && b[i] == path;
                assert(a[i] == b[i]);
                assert(a.contains(a[i]));
            }
        }
    }
    if same_content(k, k2, root, exclude_trust) {
        assert forall|path: Seq<char>| #[trigger] a.contains(path) <==> b.contains(path) by {
            assert(a.contains(path) <==> files.contains(path) && !left_out(
                w,
                root,
                exclude_trust,
                path,
            ));
            assert(b.contains(path) <==> files2.contains(path) && !left_out(
                w,
                root,
                exclude_trust,
                path,
            ));
            if lies_under(w, dir, path) && !left_out(w, root, exclude_trust, path) {
                assert(file_at(k, path) == file_at(k2, path));
            }
        }
        lemma_same_files(a, b, leq);
        assert forall|i: int| 0 <= i < a.len() implies x[i] == y[i] by {
            assert(a.contains(a[i]));
            assert(files.contains(a[i]));
            assert(lies_under(w, dir, a[i]));
            assert(file_at(k, a[i]) == file_at(k2, a[i]));
        }
        assert(x =~= y);
    }
}

// ---------------------------------------------------------------------------
// Consent and signatures hold for the content.
// ---------------------------------------------------------------------------

/// The files that were found, as the canonical text tells of them.
pub open spec fn found_files(k: Kept, log: Seq<Exchange>, at: int, root: Seq<char>) -> Seq<
    Seq<char>,
> {
    play_githooks_dir_files(k.windows, log, at, root)->Done_0
}

/// The files that a walk in a repository finds.
pub proof fn lemma_found(k: Kept, log: Seq<Exchange>, at: int, root: Seq<char>, to: int)
    requires
        0 <= at <= log.len(),
        is_fair(k, root),
        play_githooks_dir_files(k.windows, log, at, root) is Done,
        play_githooks_dir_files(k.windows, log, at, root)->Done_1 <= to,
        honest(k, log, at, to),
    ensures
        found_files(k, log, at, root).no_duplicates(),
        forall|path: Seq<char>| #[trigger]
            found_files(k, log, at, root).contains(path) <==> k.files.contains_key(path)
                && lies_under(k.windows, path_joined(k.windows, root, HOOKS_DIR@), path),
        sorted_by(found_files(k, log, at, root), up_to(path_order(k.windows))),
        all_there(k, found_files(k, log, at, root)),
        plain_names(k.windows, root, found_files(k, log, at, root)),
{
    let w = k.windows;
    let files = found_files(k, log, at, root);
    let mid = play_githooks_dir_files(w, log, at, root)->Done_1;
    lemma_walk_idles(w, log, at, seq![path_joined(w, root, HOOKS_DIR@)], seq![]);
    lemma_parts(k, log, at, mid, to);
    law_every_file_is_found_once(k, log, at, root, files, mid);
    assert forall|j: int| 0 <= j < files.len() implies k.files.contains_key(#[trigger] files[j])
        && !path_rel(w, root, files[j]).contains('\n') by {
        assert(files.contains(files[j]));
        lemma_fair_name(k, root, files[j]);
    }
}

/// The canonical text of a repository.
pub proof fn lemma_content_told(
    k: Kept,
    log: Seq<Exchange>,
    at: int,
    root: Seq<char>,
    exclude_trust: bool,
    text: Seq<char>,
    to: int,
)
    requires
        0 <= at <= log.len(),
        good_hash(k.hash),
        is_fair(k, root),
        play_canonical_content(k.windows, log, at, root, exclude_trust) == Outcome::Done(text, to),
        honest(k, log, at, to),
    ensures
        idles(log, at, to),
        at < to,
        play_githooks_dir_files(k.windows, log, at + 1, root) is Done,
        play_githooks_dir_files(k.windows, log, at + 1, root)->Done_1 <= to,
        honest(k, log, at + 1, to),
        text == text_covered(
            k.hash,
            covered(k.windows, k, root, found_files(k, log, at + 1, root), exclude_trust),
        ),
{
    let w = k.windows;
    let files = found_files(k, log, at + 1, root);
    let mid = play_githooks_dir_files(w, log, at + 1, root)->Done_1;
    lemma_canonical_told(w, k, log, at, root, exclude_trust, files, mid, text, to);
    lemma_walk_idles(w, log, at + 1, seq![path_joined(w, root, HOOKS_DIR@)], seq![]);
    lemma_blobs_told(w, k, log, mid, root, files, exclude_trust, 0, seq![]);
    lemma_parts(k, log, at, at + 1, to);
    lemma_idles(k, log, at, at + 1);
    lemma_found(k, log, at + 1, root, to);
}

/// The canonical texts of a repository in two worlds are the same exactly when the
/// content is, of all that is covered or of all that is signed.
pub proof fn law_canonical_text_tells_content(
    k: Kept,
    log: Seq<Exchange>,
    at: int,
    text: Seq<char>,
    to: int,
    k2: Kept,
    log2: Seq<Exchange>,
    at2: int,
    text2: Seq<char>,
    to2: int,
    root: Seq<char>,
    exclude_trust: bool,
)
    requires
        0 <= at <= log.len(),
        0 <= at2 <= log2.len(),
        k2.windows == k.windows,
        good_hash(k.hash),
        k2.hash == k.hash,
        is_fair(k, root),
        is_fair(k2, root),
        k.files.contains_key(path_joined(k.windows, root, CONFIG_FILE@)),
        k2.files.contains_key(path_joined(k.windows, root, CONFIG_FILE@)),
        play_canonical_content(k.windows, log, at, root, exclude_trust) == Outcome::Done(text, to),
        honest(k, log, at, to),
        play_canonical_content(k.windows, log2, at2, root, exclude_trust) == Outcome::Done(
            text2,
            to2,
        ),
        honest(k2, log2, at2, to2),
    ensures
        text == text2 <==> same_content(k, k2, root, exclude_trust),
{
    let w = k.windows;
    let files = found_files(k, log, at + 1, root);
    let files2 = found_files(k2, log2, at2 + 1, root);
    lemma_content_told(k, log, at, root, exclude_trust, text, to);
    lemma_content_told(k2, log2, at2, root, exclude_trust, text2, to2);
    lemma_found(k, log, at + 1, root, to);
    lemma_found(k2, log2, at2 + 1, root, to2);
    law_canonical_text_tells_worlds_apart(w, k, root, files, k2, root, files2, exclude_trust);
    lemma_covered_is_content(k, k2, root, files, files2, exclude_trust);
}

/// There is a consent hash exactly in a repository with a configuration.
pub proof fn law_consent_hash_where_there_is_a_config(
    k: Kept,
    log: Seq<Exchange>,
    at: int,
    root: Option<Seq<char>>,
    hash: Option<Seq<char>>,
    to: int,
)
    requires
        0 <= at,
        play_repo_root(log, at) == Outcome::Done(root, at + 1),
        play_consent_hash(k.windows, log, at) == Outcome::Done(hash, to),
        honest(k, log, at, to),
        at < to,
    ensures
        hash is Some <==> root is Some && k.files.contains_key(
            path_joined(k.windows, root->0, CONFIG_FILE@),
        ),
{
    lemma_options_differ();
    if root is Some {
        let config = path_joined(k.windows, root->0, CONFIG_FILE@);
        assert(texts(log[at].request.words@) == seq!["rev-parse"@, "--show-toplevel"@]);
        assert(texts(log[at].request.words@)[0] == "rev-parse"@);
        assert(texts(log[at + 1].request.words@) == seq![config]);
        assert(texts(log[at + 1].request.words@)[0] == config);
        assert(kept_after(k, log[at]) == k);
        if hash is Some {
            lemma_consent_ends(k.windows, log, at, root->0, hash->0, to);
        }
        reveal_with_fuel(honest, 3);
    }
}

/// A consent hash takes a few exchanges.
pub proof fn lemma_consent_ends(
    windows: bool,
    log: Seq<Exchange>,
    at: int,
    root: Seq<char>,
    hash: Seq<char>,
    to: int,
)
    requires
        0 <= at,
        yields_root(log, at, root),
        play_consent_hash(windows, log, at) == Outcome::Done(Some(hash), to),
    ensures
        play_githooks_dir_files(windows, log, at + 3, root) is Done,
        play_githooks_dir_files(windows, log, at + 3, root)->Done_1 <= to,
        at + 3 < to <= log.len(),
{
    let files = play_githooks_dir_files(windows, log, at + 3, root)->Done_0;
    let mid = play_githooks_dir_files(windows, log, at + 3, root)->Done_1;
    lemma_walk_idles(windows, log, at + 3, seq![path_joined(windows, root, HOOKS_DIR@)], seq![]);
    lemma_blobs_end(windows, log, mid, root, files, false, 0, seq![]);
}

/// Hashing files goes forward.
pub proof fn lemma_blobs_end(
    windows: bool,
    log: Seq<Exchange>,
    at: int,
    root: Seq<char>,
    files: Seq<Seq<char>>,
    exclude_trust: bool,
    i: int,
    out: Seq<(Seq<char>, Seq<char>)>,
)
    requires
        0 <= at <= log.len(),
        0 <= i,
    ensures
        play_blobs(windows, log, at, root, files, exclude_trust, i, out) matches Outcome::Done(
            _,
            to,
        ) ==> at <= to <= log.len(),
    decreases files.len() - i,
{
    if i < files.len() {
        let path = path_rel(windows, root, files[i]);
        if exclude_trust && under_trust(path) {
            lemma_blobs_end(windows, log, at, root, files, exclude_trust, i + 1, out);
        } else {
            match play_hash_object(log, at, files[i]) {
                Outcome::Done(blob, next) => {
                    lemma_blobs_end(
                        windows,
                        log,
                        next,
                        root,
                        files,
                        exclude_trust,
                        i + 1,
                        out.push((path, or_empty(blob))),
                    );
                },
                _ => {},
            }
        }
    }
}

/// The consent hashes of a repository in two worlds are the same exactly when the
/// content is: the configuration, and every file below the directory of hook scripts.
/// Any change of a byte, a name, or the set of files makes for another hash.
pub proof fn law_consent_hash_tells_content(
    k: Kept,
    log: Seq<Exchange>,
    at: int,
    hash: Seq<char>,
    to: int,
    k2: Kept,
    log2: Seq<Exchange>,
    at2: int,
    hash2: Seq<char>,
    to2: int,
    root: Seq<char>,
)
    requires
        0 <= at,
        0 <= at2,
        k2.windows == k.windows,
        good_hash(k.hash),
        k2.hash == k.hash,
        is_fair(k, root),
        is_fair(k2, root),
        yields_root(log, at, root),
        play_consent_hash(k.windows, log, at) == Outcome::Done(Some(hash), to),
        honest(k, log, at, to),
        yields_root(log2, at2, root),
        play_consent_hash(k.windows, log2, at2) == Outcome::Done(Some(hash2), to2),
        honest(k2, log2, at2, to2),
    ensures
        hash == hash2 <==> same_content(k, k2, root, false),
        kept_at(k, log, at, to) == k,
{
    let w = k.windows;
    let files = found_files(k, log, at + 3, root);
    let files2 = found_files(k2, log2, at2 + 3, root);
    let mid = play_githooks_dir_files(w, log, at + 3, root)->Done_1;
    let mid2 = play_githooks_dir_files(w, log2, at2 + 3, root)->Done_1;
    lemma_consent_found(k, log, at, root, hash, to);
    lemma_consent_found(k2, log2, at2, root, hash2, to2);
    law_consent_hash_tells_worlds_apart(
        w,
        k,
        log,
        at,
        root,
        files,
        mid,
        hash,
        to,
        k2,
        log2,
        at2,
        root,
        files2,
        mid2,
        hash2,
        to2,
    );
    lemma_covered_is_content(k, k2, root, files, files2, false);
}

/// The files that a consent hash is of.
pub proof fn lemma_consent_found(
    k: Kept,
    log: Seq<Exchange>,
    at: int,
    root: Seq<char>,
    hash: Seq<char>,
    to: int,
)
    requires
        0 <= at,
        good_hash(k.hash),
        is_fair(k, root),
        yields_root(log, at, root),
        play_consent_hash(k.windows, log, at) == Outcome::Done(Some(hash), to),
        honest(k, log, at, to),
    ensures
        play_githooks_dir_files(k.windows, log, at + 3, root) is Done,
        found_files(k, log, at + 3, root).no_duplicates(),
        forall|path: Seq<char>| #[trigger]
            found_files(k, log, at + 3, root).contains(path) <==> k.files.contains_key(path)
                && lies_under(k.windows, path_joined(k.windows, root, HOOKS_DIR@), path),
        sorted_by(found_files(k, log, at + 3, root), up_to(path_order(k.windows))),
        all_there(k, found_files(k, log, at + 3, root)),
        plain_names(k.windows, root, found_files(k, log, at + 3, root)),
{
    let w = k.windows;
    let files = found_files(k, log, at + 3, root);
    let mid = play_githooks_dir_files(w, log, at + 3, root)->Done_1;
    lemma_consent_ends(w, log, at, root, hash, to);
    lemma_consent_told(w, k, log, at, root, files, mid, hash, to);
    lemma_parts(k, log, at, at + 3, to);
    lemma_idles(k, log, at, at + 3);
    lemma_found(k, log, at + 3, root, to);
}

} // verus!
