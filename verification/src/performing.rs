//! What commands ask for, and what they say, once they are through.
use crate::commands::{
    config_with, init_shown, play_add, play_copy_shim, play_copy_shims, play_init, play_install,
    play_shim, play_shims, play_uninstall, shim, template_place, template_removal, template_update,
    SHIM_MARKER,
};
use crate::config::{known_hooks, CONFIG_FILE, HOOKS_DIR};
use crate::consent::{
    manifest_addition, manifest_line, play_manifest_from, play_record_consent, play_store_object,
};
use crate::content::{
    or_empty, paths_in, play_blobs, play_canonical_content, play_consent_hash,
    play_githooks_dir_files, play_hash_object, play_walk, under_trust,
};
use crate::git::{
    play_git, play_git_capture, play_home, play_hooks_path, play_repo_root, trust_path,
};
use crate::paths::{path_absolute, path_joined, path_rel};
use crate::signers::second_word;
use crate::signing::{
    keys_other_than, line_known, play_add_keys, play_announce_signer, play_list_signer,
    play_principal, play_sign, play_ssh_capture, play_trust_cmd, play_untrust_cmd, policy_place,
    sign_args, signed_notice, trust_args,
};
use crate::text::{joined, lines_of, texts, trimmed};
use crate::tracing::{lemma_asked_parts, lemma_none_asked, words_asked};
use crate::trust::{key_addition, play_local_trusted_keys};
use crate::world::{asked_flag, asked_listing, asked_text, said, Exchange, Op, Outcome, Reply};
use vstd::prelude::*;

verus! {

// ---------------------------------------------------------------------------
// Words.
// ---------------------------------------------------------------------------

/// A shim hands over to the program, with the name of its hook and all arguments.
pub proof fn law_shim(hook: Seq<char>)
    ensures
        shim(hook) == "#!/bin/sh\n# git-hooks shim\nexec git-hooks run "@ + hook + " \"$@\"\n"@,
{
    reveal_strlit("#!/bin/sh\n");
    reveal_strlit("# git-hooks shim");
    reveal_strlit("\nexec git-hooks run ");
    reveal_strlit("#!/bin/sh\n# git-hooks shim\nexec git-hooks run ");
    assert("#!/bin/sh\n"@ + SHIM_MARKER@ + "\nexec git-hooks run "@
        =~= "#!/bin/sh\n# git-hooks shim\nexec git-hooks run "@);
}

/// The hooks that are known.
pub proof fn law_known_hooks(hook: Seq<char>)
    ensures
        known_hooks().contains(hook) <==> hook == "applypatch-msg"@ || hook == "pre-applypatch"@
            || hook == "post-applypatch"@ || hook == "pre-commit"@ || hook == "pre-merge-commit"@
            || hook == "prepare-commit-msg"@ || hook == "commit-msg"@ || hook == "post-commit"@
            || hook == "pre-rebase"@ || hook == "post-checkout"@ || hook == "post-merge"@ || hook
            == "pre-push"@ || hook == "post-rewrite"@ || hook == "pre-auto-gc"@,
        known_hooks().len() == 14,
        known_hooks().first() == "applypatch-msg"@,
        known_hooks()[3] == "pre-commit"@,
        known_hooks().last() == "pre-auto-gc"@,
{
    let all = known_hooks();
    assert(all[0] == "applypatch-msg"@ && all[1] == "pre-applypatch"@ && all[2]
        == "post-applypatch"@ && all[3] == "pre-commit"@ && all[4] == "pre-merge-commit"@ && all[5]
        == "prepare-commit-msg"@ && all[6] == "commit-msg"@ && all[7] == "post-commit"@ && all[8]
        == "pre-rebase"@ && all[9] == "post-checkout"@ && all[10] == "post-merge"@ && all[11]
        == "pre-push"@ && all[12] == "post-rewrite"@ && all[13] == "pre-auto-gc"@);
}

/// What adopting a repository reports: the shims that were installed, or that none were,
/// and the hooks that were left, if any.
pub proof fn law_init_shown(installed: Seq<Seq<char>>, skipped: Seq<Seq<char>>)
    ensures
        installed.len() == 0 && skipped.len() == 0 ==> init_shown(installed, skipped)
            == "no shims installed.\n"@,
        installed.len() > 0 && skipped.len() == 0 ==> init_shown(installed, skipped)
            == "installed shims: "@ + joined(installed, ", "@) + "\n"@,
        skipped.len() > 0 ==> init_shown(installed, skipped) == init_shown(installed, seq![])
            + "skipped (existing non-shim hook, left untouched): "@ + joined(skipped, ", "@)
            + "\n"@,
{
    let none = Seq::<char>::empty();
    let one = "installed shims: "@ + joined(installed, ", "@) + "\n"@;
    assert("no shims installed.\n"@ + none =~= "no shims installed.\n"@);
    assert(one + none =~= one);
    assert(init_shown(installed, skipped) =~= init_shown(installed, seq![]) + (if skipped.len()
        == 0 {
        none
    } else {
        "skipped (existing non-shim hook, left untouched): "@ + joined(skipped, ", "@) + "\n"@
    }));
    if skipped.len() > 0 {
        assert(init_shown(installed, skipped) =~= init_shown(installed, seq![])
            + "skipped (existing non-shim hook, left untouched): "@ + joined(skipped, ", "@)
            + "\n"@);
    }
}

// ---------------------------------------------------------------------------
// What parts of commands do not ask for.
// ---------------------------------------------------------------------------

/// Whether none of the exchanges in a range is of one kind.
pub open spec fn avoids(log: Seq<Exchange>, op: Op, from: int, to: int) -> bool {
    from <= to <= log.len() && forall|i: int|
        from <= i < to ==> (#[trigger] log[i]).request.op != op
}

/// Whether a part of a command, if it is through, asked for nothing of one kind.
pub open spec fn is_free_of<T>(log: Seq<Exchange>, op: Op, at: int, o: Outcome<T>) -> bool {
    0 <= at <= log.len() ==> (o matches Outcome::Done(_, to) ==> avoids(log, op, at, to))
}

/// Whether a request is made to look at content, or to record a decision about it.
pub open spec fn is_for_content(op: Op) -> bool {
    op == Op::ListDir || op == Op::IsFile || op == Op::GitCapture || op == Op::GitFeed || op
        == Op::Git
}

/// Walking directories asks for directories only.
proof fn lemma_walk_free(
    windows: bool,
    log: Seq<Exchange>,
    op: Op,
    at: int,
    pending: Seq<Seq<char>>,
    files: Seq<Seq<char>>,
)
    requires
        !is_for_content(op),
    ensures
        is_free_of(log, op, at, play_walk(windows, log, at, pending, files)),
    decreases log.len() - at, pending.len(),
{
    if 0 <= at && pending.len() > 0 {
        match asked_listing(log, at, pending.last()) {
            Outcome::Done((dirs, found), next) => {
                lemma_walk_free(
                    windows,
                    log,
                    op,
                    next,
                    pending.drop_last() + paths_in(windows, pending.last(), dirs),
                    files + paths_in(windows, pending.last(), found),
                );
            },
            _ => {},
        }
    }
}

/// Hashing files asks for nothing else.
proof fn lemma_blobs_free(
    windows: bool,
    log: Seq<Exchange>,
    op: Op,
    at: int,
    root: Seq<char>,
    files: Seq<Seq<char>>,
    exclude_trust: bool,
    i: int,
    out: Seq<(Seq<char>, Seq<char>)>,
)
    requires
        !is_for_content(op),
    ensures
        is_free_of(
            log,
            op,
            at,
            play_blobs(windows, log, at, root, files, exclude_trust, i, out),
        ),
    decreases files.len() - i,
{
    if 0 <= at && i < files.len() {
        let path = path_rel(windows, root, files[i]);
        if exclude_trust && under_trust(path) {
            lemma_blobs_free(windows, log, op, at, root, files, exclude_trust, i + 1, out);
        } else {
            match play_hash_object(log, at, files[i]) {
                Outcome::Done(blob, next) => {
                    lemma_blobs_free(
                        windows,
                        log,
                        op,
                        next,
                        root,
                        files,
                        exclude_trust,
                        i + 1,
                        out.push((path, or_empty(blob))),
                    );
                },
                _ => {},
            }
        }
    }
}

/// Forming the canonical text asks for content only.
proof fn lemma_content_free(
    windows: bool,
    log: Seq<Exchange>,
    op: Op,
    at: int,
    root: Seq<char>,
    exclude_trust: bool,
)
    requires
        !is_for_content(op),
    ensures
        is_free_of(log, op, at, play_canonical_content(windows, log, at, root, exclude_trust)),
{
    if 0 <= at && play_canonical_content(windows, log, at, root, exclude_trust) is Done {
        lemma_walk_free(
            windows,
            log,
            op,
            at + 1,
            seq![path_joined(windows, root, HOOKS_DIR@)],
            seq![],
        );
        match play_githooks_dir_files(windows, log, at + 1, root) {
            Outcome::Done(files, mid) => {
                lemma_blobs_free(windows, log, op, mid, root, files, exclude_trust, 0, seq![]);
            },
            _ => {},
        }
    }
}

/// Writing the manifest asks for content only.
proof fn lemma_manifest_free(
    windows: bool,
    log: Seq<Exchange>,
    op: Op,
    at: int,
    root: Seq<char>,
    files: Seq<Seq<char>>,
    i: int,
)
    requires
        !is_for_content(op),
    ensures
        is_free_of(log, op, at, play_manifest_from(windows, log, at, root, files, i)),
    decreases files.len() - i,
{
    if 0 <= at && i < files.len() {
        match play_store_object(log, at, files[i]) {
            Outcome::Done(None, next) => {
                lemma_manifest_free(windows, log, op, next, root, files, i + 1);
            },
            Outcome::Done(Some(blob), next) => {
                let line = manifest_line(path_rel(windows, root, files[i]), blob);
                match play_git(log, next, manifest_addition(line)) {
                    Outcome::Done(_, b) => {
                        lemma_manifest_free(windows, log, op, b, root, files, i + 1);
                    },
                    _ => {},
                }
            },
            _ => {},
        }
    }
}

/// Recording a decision asks for content only.
proof fn lemma_record_free(windows: bool, log: Seq<Exchange>, op: Op, at: int, accept: bool)
    requires
        !is_for_content(op),
    ensures
        is_free_of(log, op, at, play_record_consent(windows, log, at, accept)),
{
    if 0 <= at && play_record_consent(windows, log, at, accept) is Done {
        let root = play_repo_root(log, at)->Done_0->Some_0;
        lemma_content_free(windows, log, op, at + 2, root, false);
        let b = play_consent_hash(windows, log, at)->Done_1;
        assert(avoids(log, op, at, b));
        if accept {
            match play_repo_root(log, b + 2) {
                Outcome::Done(Some(root), c) => {
                    let dir = path_joined(windows, root, HOOKS_DIR@);
                    lemma_walk_free(windows, log, op, c, seq![dir], seq![]);
                    match play_githooks_dir_files(windows, log, c, root) {
                        Outcome::Done(files, d) => {
                            let all = seq![path_joined(windows, root, CONFIG_FILE@)] + files;
                            lemma_manifest_free(windows, log, op, d, root, all, 0);
                        },
                        _ => {},
                    }
                },
                _ => {},
            }
        }
    }
}

/// Writing shims asks to write files and to make them executable, and for nothing else.
proof fn lemma_shims_free(
    windows: bool,
    log: Seq<Exchange>,
    op: Op,
    at: int,
    dir: Seq<char>,
    i: int,
)
    requires
        op != Op::WriteText,
        op != Op::MakeExecutable,
    ensures
        is_free_of(log, op, at, play_shims(windows, log, at, dir, i)),
    decreases known_hooks().len() - i,
{
    if 0 <= at && i < known_hooks().len() {
        match play_shim(windows, log, at, dir, known_hooks()[i]) {
            Outcome::Done(_, next) => {
                lemma_shims_free(windows, log, op, next, dir, i + 1);
            },
            _ => {},
        }
    }
}

/// An exchange of a kind, with none of that kind before it.
proof fn lemma_asked_next(log: Seq<Exchange>, op: Op, from: int, at: int)
    requires
        0 <= from,
        avoids(log, op, from, at),
        at < log.len(),
        log[at].request.op == op,
    ensures
        words_asked(log, op, from, at + 1) == seq![texts(log[at].request.words@)],
{
    lemma_asked_parts(log, op, from, at, at + 1);
    lemma_none_asked(log, op, from, at);
    reveal_with_fuel(words_asked, 2);
    assert(words_asked(log, op, from, at + 1) =~= seq![texts(log[at].request.words@)]);
}

/// An exchange of a kind, with none of that kind before it and none behind it.
proof fn lemma_asked_once(log: Seq<Exchange>, op: Op, from: int, at: int, to: int)
    requires
        0 <= from,
        avoids(log, op, from, at),
        at < to <= log.len(),
        log[at].request.op == op,
        avoids(log, op, at + 1, to),
    ensures
        words_asked(log, op, from, to) == seq![texts(log[at].request.words@)],
{
    lemma_asked_next(log, op, from, at);
    lemma_asked_parts(log, op, from, at + 1, to);
    lemma_none_asked(log, op, at + 1, to);
    assert(words_asked(log, op, from, to) =~= seq![texts(log[at].request.words@)]);
}

// ---------------------------------------------------------------------------
// Setting up.
// ---------------------------------------------------------------------------

/// Where things are kept below the home directory, and how `git` is told of the template.
pub proof fn law_places(dir: Seq<char>)
    ensures
        template_place() == ".config/git-hooks/template"@,
        policy_place() == ".config/git-hooks/policy.toml"@,
        template_update(dir) == seq!["config"@, "--global"@, "init.templateDir"@, dir],
        template_removal() == seq!["config"@, "--global"@, "--unset"@, "init.templateDir"@],
{
}

/// The home directory is what `HOME` says, or else what `USERPROFILE` does.
pub proof fn law_home(log: Seq<Exchange>, at: int, home: Seq<char>, to: int)
    ensures
        play_home(log, at) == Outcome::Done(home, to) <==> asked_text(
            log,
            at,
            Op::EnvVar,
            seq!["HOME"@],
        ) == Outcome::Done(Some(home), to) || asked_text(log, at, Op::EnvVar, seq!["HOME"@])
            == Outcome::Done(None::<Seq<char>>, at + 1) && asked_text(
            log,
            at + 1,
            Op::EnvVar,
            seq!["USERPROFILE"@],
        ) == Outcome::Done(Some(home), to),
{
}

/// What installing says, and how often.
pub proof fn law_installing_says(windows: bool, log: Seq<Exchange>)
    requires
        play_install(windows, log, 0) is Done,
    ensures
        words_asked(log, Op::Print, 0, play_install(windows, log, 0)->Done_1) == seq![
            seq![
                "installed. new clones get hook shims automatically.\nexisting repo? run `git hooks init` inside it to copy the shims.\n"@,
            ],
        ],
{
    let to = play_install(windows, log, 0)->Done_1;
    let home = play_home(log, 0)->Done_0;
    let a = play_home(log, 0)->Done_1;
    let dir = path_joined(windows, path_joined(windows, home, template_place()), "hooks"@);
    lemma_shims_free(windows, log, Op::Print, a + 1, dir, 0);
    lemma_asked_once(log, Op::Print, 0, to - 1, to);
}

/// What uninstalling asks of `git`, what it removes, and what it says.
pub proof fn law_uninstalling_says(windows: bool, log: Seq<Exchange>)
    requires
        play_uninstall(windows, log, 0) is Done,
    ensures
        ({
            let to = play_uninstall(windows, log, 0)->Done_1;
            play_home(log, 1) matches Outcome::Done(home, _) && {
                &&& words_asked(log, Op::Git, 0, to) == seq![
                    seq!["config"@, "--global"@, "--unset"@, "init.templateDir"@],
                ]
                &&& words_asked(log, Op::RemoveDirs, 0, to) == seq![
                    seq![path_joined(windows, home, ".config/git-hooks/template"@)],
                ]
                &&& words_asked(log, Op::Print, 0, to) == seq![
                    seq![
                        "uninstalled. already-cloned repos keep their shims; delete .git/hooks/* to remove.\n"@,
                    ],
                ]
            }
        }),
{
    let to = play_uninstall(windows, log, 0)->Done_1;
    lemma_asked_once(log, Op::Git, 0, 0, to);
    lemma_asked_once(log, Op::RemoveDirs, 0, to - 2, to);
    lemma_asked_once(log, Op::Print, 0, to - 1, to);
}

/// Copying shims says nothing.
proof fn lemma_copies_free(
    windows: bool,
    log: Seq<Exchange>,
    op: Op,
    at: int,
    from: Seq<char>,
    to: Seq<char>,
    i: int,
    installed: Seq<Seq<char>>,
    skipped: Seq<Seq<char>>,
)
    requires
        op == Op::Print || op == Op::CreateDirs,
    ensures
        is_free_of(
            log,
            op,
            at,
            play_copy_shims(windows, log, at, from, to, i, installed, skipped),
        ),
    decreases known_hooks().len() - i,
{
    if 0 <= at && i < known_hooks().len() {
        let h = known_hooks()[i];
        match play_copy_shim(log, at, path_joined(windows, from, h), path_joined(windows, to, h)) {
            Outcome::Done(None, next) => {
                lemma_copies_free(windows, log, op, next, from, to, i + 1, installed, skipped);
            },
            Outcome::Done(Some(true), next) => {
                let more = installed.push(h);
                lemma_copies_free(windows, log, op, next, from, to, i + 1, more, skipped);
            },
            Outcome::Done(Some(false), next) => {
                let more = skipped.push(h);
                lemma_copies_free(windows, log, op, next, from, to, i + 1, installed, more);
            },
            _ => {},
        }
    }
}

/// Adopting a repository copies from the template to the directory for hooks that `git`
/// names, which is made if it is not there, and reports what was copied and what was not.
pub proof fn law_adopting_says(windows: bool, log: Seq<Exchange>)
    requires
        play_init(log, 0, windows) is Done,
    ensures
        ({
            let to = play_init(log, 0, windows)->Done_1;
            play_home(log, 1) matches Outcome::Done(home, a) && play_hooks_path(
                log,
                a + 1,
                windows,
            ) matches Outcome::Done(Some(dir), b) && {
                let from = path_joined(
                    windows,
                    path_joined(windows, home, ".config/git-hooks/template"@),
                    "hooks"@,
                );
                &&& asked_flag(log, a, Op::IsDir, seq![from]) == Outcome::Done(true, a + 1)
                &&& words_asked(log, Op::CreateDirs, 0, to) == seq![seq![dir]]
                &&& play_copy_shims(windows, log, b + 1, from, dir, 0, seq![], seq![])
                    matches Outcome::Done((installed, skipped), _) && words_asked(
                    log,
                    Op::Print,
                    0,
                    to,
                ) == seq![seq![init_shown(installed, skipped)]]
            }
        }),
{
    let to = play_init(log, 0, windows)->Done_1;
    let home = play_home(log, 1)->Done_0;
    let a = play_home(log, 1)->Done_1;
    let dir = play_hooks_path(log, a + 1, windows)->Done_0->Some_0;
    let b = play_hooks_path(log, a + 1, windows)->Done_1;
    let from = path_joined(windows, path_joined(windows, home, template_place()), "hooks"@);
    lemma_copies_free(windows, log, Op::Print, b + 1, from, dir, 0, seq![], seq![]);
    lemma_copies_free(windows, log, Op::CreateDirs, b + 1, from, dir, 0, seq![], seq![]);
    lemma_asked_once(log, Op::CreateDirs, 0, b, to);
    lemma_asked_once(log, Op::Print, 0, to - 1, to);
}

/// The directory for hooks is the one that `git` names; a path that is not absolute is seen
/// from the current directory.
pub proof fn law_hooks_directory(
    log: Seq<Exchange>,
    at: int,
    windows: bool,
    dir: Seq<char>,
    to: int,
)
    ensures
        play_hooks_path(log, at, windows) == Outcome::Done(Some(dir), to) <==> (play_git_capture(
            log,
            at,
            seq!["rev-parse"@, "--git-path"@, "hooks"@],
        ) matches Outcome::Done(Some(p), b) && (if path_absolute(windows, p) {
            dir == p && to == b
        } else {
            asked_text(log, b, Op::CurrentDir, seq![]) matches Outcome::Done(Some(here), c) && dir
                == path_joined(windows, here, p) && to == c
        })),
{
}

// ---------------------------------------------------------------------------
// Adding a command.
// ---------------------------------------------------------------------------

/// Adding a command writes the configuration, once, and says so, once; nothing else is
/// written.
pub proof fn law_adding_says(windows: bool, log: Seq<Exchange>, hook: Seq<char>, cmd: Seq<char>)
    requires
        play_add(windows, log, 0, hook, cmd) is Done,
    ensures
        known_hooks().contains(hook),
        ({
            let to = play_add(windows, log, 0, hook, cmd)->Done_1;
            play_repo_root(log, 0) matches Outcome::Done(Some(root), a) && {
                let path = path_joined(windows, root, ".githooks.toml"@);
                asked_text(log, a, Op::ReadText, seq![path]) matches Outcome::Done(text, b)
                    && config_with(text, hook, cmd) matches Ok(new) && {
                    &&& words_asked(log, Op::WriteText, 0, to) == seq![seq![path, new]]
                    &&& words_asked(log, Op::Print, 0, to) == seq![
                        seq![
                            "added to .githooks.toml: ["@ + hook + "] "@ + cmd
                                + "\ncommit the file so others see it. they will be prompted before it runs for them.\n"@,
                        ],
                    ]
                    &&& play_record_consent(windows, log, b + 2, true) matches Outcome::Done(_, end)
                        && end == to
                }
            }
        }),
{
    let to = play_add(windows, log, 0, hook, cmd)->Done_1;
    lemma_record_free(windows, log, Op::WriteText, 4, true);
    lemma_record_free(windows, log, Op::Print, 4, true);
    lemma_asked_once(log, Op::WriteText, 0, 2, to);
    lemma_asked_once(log, Op::Print, 0, 3, to);
    reveal_strlit("added to ");
    reveal_strlit(".githooks.toml");
    reveal_strlit(": [");
    reveal_strlit("added to .githooks.toml: [");
    assert("added to "@ + CONFIG_FILE@ + ": ["@ =~= "added to .githooks.toml: ["@);
}

// ---------------------------------------------------------------------------
// Trusting.
// ---------------------------------------------------------------------------

/// What trusting a key says: which key, and where it is trusted.
pub proof fn law_trusting_says(
    windows: bool,
    log: Seq<Exchange>,
    args: Seq<Seq<char>>,
    key: Seq<char>,
    global: bool,
)
    requires
        trust_args(args) == Some((key, global)),
        play_trust_cmd(windows, log, 0, args) is Done,
    ensures
        ({
            let to = play_trust_cmd(windows, log, 0, args)->Done_1;
            let said = words_asked(log, Op::Print, 0, to);
            &&& !global ==> said == seq![
                seq!["trusted signing key "@ + key + " for this repository.\n"@],
            ]
            &&& global ==> exists|j: int|
                #![trigger play_home(log, j)]
                0 <= j && (play_home(log, j) matches Outcome::Done(home, _) && said == seq![
                    seq![
                        "globally trusted signing key "@ + key + " ("@ + path_joined(
                            windows,
                            home,
                            ".config/git-hooks/policy.toml"@,
                        ) + ")\n"@,
                    ],
                ])
        }),
{
    let to = play_trust_cmd(windows, log, 0, args)->Done_1;
    lemma_asked_once(log, Op::Print, 0, to - 1, to);
    if global {
        let a = play_home(log, 0)->Done_1;
        let b = play_home(log, a + 1)->Done_1;
        assert(play_home(log, b + 2) is Done);
    }
}

/// Adding keys asks `git` for that only.
proof fn lemma_keys_free(log: Seq<Exchange>, op: Op, at: int, keys: Seq<Seq<char>>, i: int)
    requires
        op != Op::Git,
    ensures
        is_free_of(log, op, at, play_add_keys(log, at, keys, i)),
    decreases keys.len() - i,
{
    if 0 <= at && i < keys.len() {
        match play_git(log, at, key_addition(keys[i])) {
            Outcome::Done(_, next) => {
                lemma_keys_free(log, op, next, keys, i + 1);
            },
            _ => {},
        }
    }
}

/// What no longer trusting a key says: which key, and where it was trusted.
pub proof fn law_untrusting_says(
    windows: bool,
    log: Seq<Exchange>,
    args: Seq<Seq<char>>,
    key: Seq<char>,
    global: bool,
)
    requires
        trust_args(args) == Some((key, global)),
        play_untrust_cmd(windows, log, 0, args) is Done,
    ensures
        words_asked(log, Op::Print, 0, play_untrust_cmd(windows, log, 0, args)->Done_1) == seq![
            seq![
                if global {
                    "removed "@ + key + " from global trust.\n"@
                } else {
                    "untrusted "@ + key + " for this repository.\n"@
                },
            ],
        ],
{
    let to = play_untrust_cmd(windows, log, 0, args)->Done_1;
    if !global {
        let keys = play_local_trusted_keys(log, 1)->Done_0;
        lemma_keys_free(log, Op::Print, 3, keys_other_than(keys, key), 0);
    }
    lemma_asked_once(log, Op::Print, 0, to - 1, to);
}

// ---------------------------------------------------------------------------
// Signing.
// ---------------------------------------------------------------------------

/// What signing is told to say.
pub open spec fn says_signed(principal: Seq<char>, fingerprint: Seq<char>) -> Seq<char> {
    "signed .githooks.toml + .githooks/ (excluding trust/) as "@ + principal
        + "\nsigning key fingerprint: "@ + fingerprint
        + "\ncommit .githooks/trust/ so cloners who trust this key are never prompted.\n"@
}

/// What is said of a signature.
proof fn lemma_signed_notice(principal: Seq<char>, fingerprint: Seq<char>)
    ensures
        signed_notice(principal, fingerprint) == says_signed(principal, fingerprint),
{
    reveal_strlit("signed ");
    reveal_strlit(".githooks.toml");
    reveal_strlit(" + ");
    reveal_strlit(".githooks");
    reveal_strlit("/ (excluding trust/) as ");
    reveal_strlit("signed .githooks.toml + .githooks/ (excluding trust/) as ");
    reveal_strlit("\ncommit ");
    reveal_strlit("/trust/ so cloners who trust this key are never prompted.\n");
    reveal_strlit("\ncommit .githooks/trust/ so cloners who trust this key are never prompted.\n");
    assert("signed "@ + CONFIG_FILE@ + " + "@ + HOOKS_DIR@ + "/ (excluding trust/) as "@
        =~= "signed .githooks.toml + .githooks/ (excluding trust/) as "@);
    assert("\ncommit "@ + HOOKS_DIR@
        + "/trust/ so cloners who trust this key are never prompted.\n"@
        =~= "\ncommit .githooks/trust/ so cloners who trust this key are never prompted.\n"@);
    assert(signed_notice(principal, fingerprint) =~= says_signed(principal, fingerprint));
}

/// Signing signs the content once, with the key that was named and in the namespace of the
/// program; what comes of it is written, once, to the file of the signature; and the signer
/// and the fingerprint of the key are said, once.
pub proof fn law_signing_says(
    windows: bool,
    log: Seq<Exchange>,
    args: Seq<Seq<char>>,
    root: Seq<char>,
    key: Seq<char>,
    signer: Option<Seq<char>>,
)
    requires
        sign_args(args) == Some((key, signer)),
        play_repo_root(log, 0) == Outcome::Done(Some(root), 1int),
        play_sign(windows, log, 0, args) is Done,
    ensures
        ({
            let to = play_sign(windows, log, 0, args)->Done_1;
            let trust = path_joined(
                windows,
                path_joined(windows, root, ".githooks"@),
                "trust"@,
            );
            play_canonical_content(windows, log, 2, root, true) matches Outcome::Done(content, a)
                && play_principal(log, a + 3, signer) matches Outcome::Done(principal, b)
                && play_ssh_capture(log, to - 2, seq!["-lf"@, key]) matches Outcome::Done(shown, _)
                && {
                &&& a < log.len()
                &&& words_asked(log, Op::SshFeed, 0, to) == seq![
                    seq![content, "-Y"@, "sign"@, "-f"@, key, "-n"@, "git-hooks"@],
                ]
                &&& log[a].reply matches Reply::Ran(Ok(f)) && words_asked(
                    log,
                    Op::WriteText,
                    0,
                    to,
                ) == seq![seq![path_joined(windows, trust, "hooks.sig"@), said(f)]]
                &&& words_asked(log, Op::CreateDirs, 0, to) == seq![seq![trust]]
                &&& words_asked(log, Op::Print, 0, to) == seq![
                    seq![says_signed(principal, second_word(or_empty(shown)))],
                ]
            }
        }),
{
    let to = play_sign(windows, log, 0, args)->Done_1;
    lemma_content_free(windows, log, Op::SshFeed, 2, root, true);
    lemma_content_free(windows, log, Op::WriteText, 2, root, true);
    lemma_content_free(windows, log, Op::CreateDirs, 2, root, true);
    lemma_content_free(windows, log, Op::Print, 2, root, true);
    let a = play_canonical_content(windows, log, 2, root, true)->Done_1;
    lemma_announced(windows, log, a + 3, root, key, signer, to);
    lemma_trust_place(windows, root);
    lemma_asked_once(log, Op::SshFeed, 0, a, to);
    lemma_asked_once(log, Op::CreateDirs, 0, a + 1, to);
    lemma_asked_once(log, Op::WriteText, 0, a + 2, to);
    lemma_asked_once(log, Op::Print, 0, to - 1, to);
}

/// Where the signature is kept.
proof fn lemma_trust_place(windows: bool, root: Seq<char>)
    ensures
        trust_path(windows, root) == path_joined(
            windows,
            path_joined(windows, root, ".githooks"@),
            "trust"@,
        ),
{
}

/// What is asked for once a signature is written.
proof fn lemma_announced(
    windows: bool,
    log: Seq<Exchange>,
    at: int,
    root: Seq<char>,
    key: Seq<char>,
    signer: Option<Seq<char>>,
    to: int,
)
    requires
        0 <= at <= log.len(),
        play_announce_signer(windows, log, at, root, key, signer) matches Outcome::Done(_, end)
            && end == to,
    ensures
        at + 2 <= to <= log.len(),
        avoids(log, Op::SshFeed, at, to),
        avoids(log, Op::WriteText, at, to),
        avoids(log, Op::CreateDirs, at, to),
        avoids(log, Op::Print, at, to - 1),
        log[to - 1].request.op == Op::Print,
        play_principal(log, at, signer) matches Outcome::Done(principal, _) && play_ssh_capture(
            log,
            to - 2,
            seq!["-lf"@, key],
        ) matches Outcome::Done(shown, _) && texts(log[to - 1].request.words@) == seq![
            says_signed(principal, second_word(or_empty(shown))),
        ],
{
    let principal = play_principal(log, at, signer)->Done_0;
    let shown = play_ssh_capture(log, to - 2, seq!["-lf"@, key])->Done_0;
    lemma_signed_notice(principal, second_word(or_empty(shown)));
}

/// A signer whose line is in the list, white space at its ends aside, is not listed again.
/// Any other is listed by one line at the end, which starts behind a line feed.
pub proof fn law_signer_is_listed_once(
    log: Seq<Exchange>,
    at: int,
    path: Seq<char>,
    line: Seq<char>,
    text: Seq<char>,
    to: int,
)
    requires
        0 <= at,
        play_list_signer(log, at, path, line) == Outcome::Done((), to),
        asked_text(log, at, Op::ReadText, seq![path]) matches Outcome::Done(read, _) && (read
            == Some(text) || read is None && text.len() == 0),
    ensures
        (exists|i: int|
            0 <= i < lines_of(text).len() && trimmed(#[trigger] lines_of(text)[i]) == trimmed(line))
            ==> to == at + 1,
        (forall|i: int|
            0 <= i < lines_of(text).len() ==> trimmed(#[trigger] lines_of(text)[i]) != trimmed(
                line,
            )) ==> to == at + 2 && to <= log.len() && log[at + 1].request.op == Op::AppendText
            && texts(log[at + 1].request.words@) == seq![
            path,
            if text.len() > 0 && text.last() != '\n' {
                seq!['\n'] + line + seq!['\n']
            } else {
                line + seq!['\n']
            },
        ],
{
    reveal_strlit("\n");
    assert("\n"@ =~= seq!['\n']);
    let none = Seq::<char>::empty();
    assert(none + line + "\n"@ =~= line + seq!['\n']);
    let read = asked_text(log, at, Op::ReadText, seq![path])->Done_0;
    assert(text =~= or_empty(read));
    assert(line_known(text, line) <==> exists|i: int|
        0 <= i < lines_of(text).len() && trimmed(#[trigger] lines_of(text)[i]) == trimmed(line));
}

} // verus!
