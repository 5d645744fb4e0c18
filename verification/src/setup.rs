//! Setting up the machine, once and again.
use crate::commands::{
    play_install, play_shims, play_uninstall, shim, template_place, template_removal,
    template_update,
};
use crate::config::{known_hooks, lemma_hooks_differ};
use crate::git::play_home;
use crate::keeping::{
    file_at, home_of, honest, hook_path, is_hook, kept_after, kept_at, lemma_home_told,
    lemma_hook_paths, lemma_idles, lemma_options_differ, lemma_parts, with_dirs, Kept,
};
use crate::paths::{is_name, path_joined};
use crate::text::texts;
use crate::tree::{all_names, descended, lead_to, lies_under};
use crate::world::{Exchange, Outcome};
use vstd::prelude::*;

verus! {

/// What the world keeps once the shims from the `i`-th hook on are written.
spec fn with_shims(windows: bool, k: Kept, dir: Seq<char>, i: int) -> Kept
    decreases known_hooks().len() - i,
{
    if i >= known_hooks().len() {
        k
    } else {
        let path = hook_path(windows, dir, i);
        with_shims(
            windows,
            Kept {
                files: k.files.insert(path, shim(known_hooks()[i])),
                executable: k.executable.insert(path),
                ..k
            },
            dir,
            i + 1,
        )
    }
}

/// Writing shims leaves them.
proof fn lemma_shims_written(
    windows: bool,
    k: Kept,
    log: Seq<Exchange>,
    at: int,
    dir: Seq<char>,
    i: int,
    to: int,
)
    requires
        0 <= at <= log.len(),
        0 <= i,
        play_shims(windows, log, at, dir, i) == Outcome::Done((), to),
    ensures
        at <= to <= log.len(),
        kept_at(k, log, at, to) == with_shims(windows, k, dir, i),
    decreases known_hooks().len() - i,
{
    if i < known_hooks().len() {
        let hook = known_hooks()[i];
        let path = hook_path(windows, dir, i);
        assert(texts(log[at].request.words@) == seq![path, shim(hook)]);
        assert(texts(log[at].request.words@)[0] == path);
        assert(texts(log[at].request.words@)[1] == shim(hook));
        assert(texts(log[at + 1].request.words@) == seq![path]);
        assert(texts(log[at + 1].request.words@)[0] == path);
        let k2 = kept_after(kept_after(k, log[at]), log[at + 1]);
        lemma_shims_written(windows, k2, log, at + 2, dir, i + 1, to);
        lemma_parts(k, log, at, at + 2, to);
        assert(kept_at(k, log, at, at + 2) == k2) by {
            reveal_with_fuel(kept_at, 3);
        }
    }
}

/// What the shims leave: each its text, and nothing else changed.
proof fn lemma_with_shims(windows: bool, k: Kept, dir: Seq<char>, i: int)
    requires
        0 <= i,
    ensures
        ({
            let k2 = with_shims(windows, k, dir, i);
            &&& forall|j: int|
                i <= j < known_hooks().len() ==> file_at(k2, #[trigger] hook_path(windows, dir, j))
                    == Some(shim(known_hooks()[j])) && k2.executable.contains(
                    hook_path(windows, dir, j),
                )
            &&& forall|j: int|
                0 <= j < i && j < known_hooks().len() ==> file_at(
                    k2,
                    #[trigger] hook_path(windows, dir, j),
                ) == file_at(k, hook_path(windows, dir, j)) && k2.executable.contains(
                    hook_path(windows, dir, j),
                ) == k.executable.contains(hook_path(windows, dir, j))
            &&& forall|path: Seq<char>|
                !is_hook(windows, dir, path) ==> #[trigger] file_at(k2, path) == file_at(k, path)
            &&& forall|path: Seq<char>|
                !is_hook(windows, dir, path) ==> #[trigger] k2.executable.contains(path)
                    == k.executable.contains(path)
            &&& k2 == (Kept { files: k2.files, executable: k2.executable, ..k })
        }),
    decreases known_hooks().len() - i,
{
    if i < known_hooks().len() {
        let path = hook_path(windows, dir, i);
        let k1 = Kept {
            files: k.files.insert(path, shim(known_hooks()[i])),
            executable: k.executable.insert(path),
            ..k
        };
        let k2 = with_shims(windows, k, dir, i);
        lemma_with_shims(windows, k1, dir, i + 1);
        assert(is_hook(windows, dir, path));
        assert forall|j: int| 0 <= j < i implies file_at(k2, #[trigger] hook_path(windows, dir, j))
            == file_at(k, hook_path(windows, dir, j)) && k2.executable.contains(
            hook_path(windows, dir, j),
        ) == k.executable.contains(hook_path(windows, dir, j)) by {
            lemma_hook_paths(windows, dir, i, j);
        }
        assert(file_at(k2, path) == Some(shim(known_hooks()[i])));
        assert forall|other: Seq<char>| !is_hook(windows, dir, other) implies #[trigger] file_at(
            k2,
            other,
        ) == file_at(k, other) by {
            assert(file_at(k1, other) == file_at(k, other));
        }
        assert forall|other: Seq<char>| !is_hook(windows, dir, other) implies
            #[trigger] k2.executable.contains(other) == k.executable.contains(other) by {
            assert(k1.executable.contains(other) == k.executable.contains(other));
        }
    }
}

/// Where the shims are there, writing them again changes nothing.
proof fn lemma_shims_there(windows: bool, k: Kept, dir: Seq<char>, i: int)
    requires
        0 <= i,
        forall|j: int|
            0 <= j < known_hooks().len() ==> file_at(k, #[trigger] hook_path(windows, dir, j))
                == Some(shim(known_hooks()[j])) && k.executable.contains(
                hook_path(windows, dir, j),
            ),
    ensures
        with_shims(windows, k, dir, i) == k,
    decreases known_hooks().len() - i,
{
    if i < known_hooks().len() {
        let path = hook_path(windows, dir, i);
        assert(k.files.insert(path, shim(known_hooks()[i])) =~= k.files);
        assert(k.executable.insert(path) =~= k.executable);
        lemma_shims_there(windows, k, dir, i + 1);
    }
}

/// What setting up leaves in a world: the shims, and `git` pointed at them.
proof fn lemma_installed(windows: bool, k: Kept, log: Seq<Exchange>, h: Seq<char>, to: int)
    requires
        home_of(k) == Some(h),
        play_install(windows, log, 0) == Outcome::Done((), to),
        honest(k, log, 0, to),
    ensures
        ({
            let dir = path_joined(windows, h, template_place());
            let hooks = path_joined(windows, dir, "hooks"@);
            let k1 = with_shims(windows, Kept { dirs: with_dirs(k, hooks), ..k }, hooks, 0);
            kept_at(k, log, 0, to) == (Kept {
                global: k1.global.insert("init.templateDir"@, dir),
                ..k1
            })
        }),
{
    lemma_options_differ();
    let dir = path_joined(windows, h, template_place());
    let hooks = path_joined(windows, dir, "hooks"@);
    let h1 = play_home(log, 0)->Done_0;
    let a = play_home(log, 0)->Done_1;
    lemma_home_told(k, log, 0, h1, a);
    let hooks1 = path_joined(windows, path_joined(windows, h1, template_place()), "hooks"@);
    let c = play_shims(windows, log, a + 1, hooks1, 0)->Done_1;
    let k0 = kept_after(k, log[a]);
    let done = play_shims(windows, log, a + 1, hooks1, 0)->Done_0;
    assert(done == ());
    lemma_shims_written(windows, k0, log, a + 1, hooks1, 0, c);
    let h2 = play_home(log, c)->Done_0;
    let d = play_home(log, c)->Done_1;
    let k1 = kept_at(k0, log, a + 1, c);
    lemma_home_told(k1, log, c, h2, d);
    assert(to == d + 2);
    lemma_parts(k, log, 0, a, to);
    lemma_idles(k, log, 0, a);
    assert(h1 == h);
    assert(texts(log[a].request.words@) == seq![hooks]);
    assert(texts(log[a].request.words@)[0] == hooks);
    assert(kept_at(k, log, a, a + 1) == k0) by {
        reveal_with_fuel(kept_at, 2);
    }
    lemma_parts(k, log, a, a + 1, to);
    lemma_parts(k0, log, a + 1, c, to);
    lemma_with_shims(windows, k0, hooks, 0);
    lemma_parts(k1, log, c, d, to);
    lemma_idles(k1, log, c, d);
    assert(home_of(k1) == home_of(k));
    assert(h2 == h);
    let w = texts(log[d].request.words@);
    assert(w == template_update(dir));
    assert(w[0] == "config"@ && w[1] == "--global"@ && w[2] == "init.templateDir"@ && w[3] == dir);
    reveal_strlit("--unset");
    reveal_strlit("init.templateDir");
    assert("--unset"@.len() != "init.templateDir"@.len());
    reveal_with_fuel(kept_at, 3);
}

/// Setting up the machine leaves a shim for every hook in the template directory, which
/// may be run, and points `git` at that directory for all new repositories. Every other
/// file, and the configuration of the repository, is as it was. Setting it up once more
/// changes nothing.
pub proof fn law_installing_twice(
    windows: bool,
    k: Kept,
    h: Seq<char>,
    log: Seq<Exchange>,
    to: int,
    log2: Seq<Exchange>,
    to2: int,
)
    requires
        home_of(k) == Some(h),
        play_install(windows, log, 0) == Outcome::Done((), to),
        honest(k, log, 0, to),
        play_install(windows, log2, 0) == Outcome::Done((), to2),
        honest(kept_at(k, log, 0, to), log2, 0, to2),
    ensures
        ({
            let dir = path_joined(windows, h, template_place());
            let hooks = path_joined(windows, dir, "hooks"@);
            let k2 = kept_at(k, log, 0, to);
            &&& forall|j: int|
                0 <= j < known_hooks().len() ==> file_at(
                    k2,
                    #[trigger] hook_path(windows, hooks, j),
                ) == Some(shim(known_hooks()[j])) && k2.executable.contains(
                    hook_path(windows, hooks, j),
                )
            &&& forall|path: Seq<char>|
                !is_hook(windows, hooks, path) ==> #[trigger] file_at(k2, path) == file_at(k, path)
            &&& forall|path: Seq<char>|
                !is_hook(windows, hooks, path) ==> #[trigger] k2.executable.contains(path)
                    == k.executable.contains(path)
            &&& k2 == (Kept {
                files: k2.files,
                executable: k2.executable,
                dirs: with_dirs(k, hooks),
                global: k.global.insert("init.templateDir"@, dir),
                ..k
            })
            &&& kept_at(k2, log2, 0, to2) == k2
        }),
{
    let dir = path_joined(windows, h, template_place());
    let hooks = path_joined(windows, dir, "hooks"@);
    let k0 = Kept { dirs: with_dirs(k, hooks), ..k };
    let k1 = with_shims(windows, k0, hooks, 0);
    let k2 = kept_at(k, log, 0, to);
    lemma_installed(windows, k, log, h, to);
    lemma_with_shims(windows, k0, hooks, 0);
    assert forall|j: int| 0 <= j < known_hooks().len() implies file_at(
        k2,
        #[trigger] hook_path(windows, hooks, j),
    ) == Some(shim(known_hooks()[j])) && k2.executable.contains(hook_path(windows, hooks, j)) by {
        assert(file_at(k1, hook_path(windows, hooks, j)) == Some(shim(known_hooks()[j])));
    }
    assert forall|path: Seq<char>| !is_hook(windows, hooks, path) implies #[trigger] file_at(
        k2,
        path,
    ) == file_at(k, path) by {
        assert(file_at(k1, path) == file_at(k0, path));
    }
    assert forall|path: Seq<char>| !is_hook(windows, hooks, path) implies
        #[trigger] k2.executable.contains(path) == k.executable.contains(path) by {
        assert(k1.executable.contains(path) == k0.executable.contains(path));
    }
    lemma_installed(windows, k2, log2, h, to2);
    assert(with_dirs(k2, hooks) =~= k2.dirs);
    lemma_shims_there(windows, k2, hooks, 0);
    assert(k2.global.insert("init.templateDir"@, dir) =~= k2.global);
}

/// Removing the setup leaves none of the shims in the template directory, nor anything else
/// there, and `git` is no longer pointed at it. Every other file, and the configuration of
/// the repository, is as it was.
pub proof fn law_uninstalling(k: Kept, h: Seq<char>, log: Seq<Exchange>, to: int)
    requires
        home_of(k) == Some(h),
        play_uninstall(k.windows, log, 0) == Outcome::Done((), to),
        honest(k, log, 0, to),
    ensures
        ({
            let dir = path_joined(k.windows, h, template_place());
            let hooks = path_joined(k.windows, dir, "hooks"@);
            let k2 = kept_at(k, log, 0, to);
            &&& forall|path: Seq<char>| #[trigger]
                file_at(k2, path) == (if lies_under(k.windows, dir, path) {
                    None
                } else {
                    file_at(k, path)
                })
            &&& forall|j: int|
                0 <= j < known_hooks().len() ==> file_at(
                    k2,
                    #[trigger] hook_path(k.windows, hooks, j),
                ) is None
            &&& k2.global == k.global.remove("init.templateDir"@)
            &&& k2.config == k.config
        }),
{
    reveal_strlit("hooks");
    reveal_strlit(".");
    reveal_strlit("..");
    lemma_options_differ();
    let windows = k.windows;
    let dir = path_joined(windows, h, template_place());
    let hooks = path_joined(windows, dir, "hooks"@);
    let k2 = kept_at(k, log, 0, to);
    let w = texts(log[0].request.words@);
    assert(w == template_removal());
    assert(w[0] == "config"@ && w[1] == "--global"@ && w[2] == "--unset"@ && w[3]
        == "init.templateDir"@);
    let k1 = kept_after(k, log[0]);
    let h1 = play_home(log, 1)->Done_0;
    let a = play_home(log, 1)->Done_1;
    lemma_home_told(k1, log, 1, h1, a);
    assert(to == a + 2);
    lemma_parts(k, log, 0, 1, to);
    assert(kept_at(k, log, 0, 1) == k1) by {
        reveal_with_fuel(kept_at, 2);
    }
    lemma_parts(k1, log, 1, a, to);
    lemma_idles(k1, log, 1, a);
    assert(home_of(k1) == home_of(k));
    assert(texts(log[a].request.words@) == seq![dir]);
    assert(texts(log[a].request.words@)[0] == dir);
    assert(k2 == kept_after(k1, log[a])) by {
        reveal_with_fuel(kept_at, 3);
    }
    lemma_hooks_differ();
    assert(is_name(windows, "hooks"@));
    assert forall|j: int| 0 <= j < known_hooks().len() implies file_at(
        k2,
        #[trigger] hook_path(windows, hooks, j),
    ) is None by {
        let names = seq!["hooks"@, known_hooks()[j]];
        assert(is_name(true, known_hooks()[j]));
        assert(all_names(windows, names));
        assert(names.drop_last() =~= seq!["hooks"@]);
        assert(names.drop_last().drop_last() =~= seq![]);
        assert(descended(windows, dir, names) == hook_path(windows, hooks, j)) by {
            reveal_with_fuel(descended, 3);
        }
        assert(lead_to(windows, dir, names, hook_path(windows, hooks, j)));
    }
}

} // verus!
