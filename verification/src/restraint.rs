//! What commands may ask for, and nothing else.
use crate::answering::{compares, lemma_modest_record, records};
use crate::commands::{
    play_add, play_consent, play_copy_shim, play_copy_shims, play_diff, play_init, play_install,
    play_shim, play_shims, play_uninstall, shim,
};
use crate::config::known_hooks;
use crate::content::{or_empty, play_hash_object};
use crate::git::{play_git, play_home, play_hooks_path, play_repo_root};
use crate::paths::path_joined;
use crate::performing::law_places;
use crate::prompt::{
    accepted_blob, added_shown, changed_shown, play_changes, play_git_diff_blob_file,
};
use crate::requests::{lemma_blobs, lemma_consent_hash, lemma_signature_line, lemma_walk, looks};
use crate::signing::{
    keys_other_than, other_than, play_add_keys, play_sign, play_trust_cmd, play_untrust_cmd,
    trust_args,
};
use crate::trust::{key_addition, play_local_trusted_keys};
use crate::world::{asked_text, Exchange, Op, Outcome, Stop};
use vstd::prelude::*;

verus! {

/// Whether a request says something.
pub open spec fn says(op: Op) -> bool {
    op == Op::Print || op == Op::Report
}

// ---------------------------------------------------------------------------
// Deciding, and looking.
// ---------------------------------------------------------------------------

/// Deciding by command looks, records the decision, and says so. It trusts no key, and
/// runs nothing.
pub proof fn law_deciding_asks(windows: bool, log: Seq<Exchange>, accept: bool)
    ensures
        play_consent(windows, log, 0, accept) matches Outcome::Stop(Stop::Ask(op, words)) ==> looks(
            op,
            words,
        ) || compares(op, words) || records(op, words) || says(op),
{
    broadcast use {lemma_consent_hash, lemma_modest_record};

}

/// Whether a request is to store a file in the object database of `git`.
pub open spec fn stores(op: Op, words: Seq<Seq<char>>) -> bool {
    op == Op::GitCapture && words.len() == 3 && words[0] == "hash-object"@ && words[1] == "-w"@
}

/// Comparing files looks, stores and compares.
broadcast proof fn lemma_changes_compare(
    windows: bool,
    log: Seq<Exchange>,
    at: int,
    root: Seq<char>,
    manifest: Seq<(Seq<char>, Seq<char>)>,
    current: Seq<Seq<char>>,
    i: int,
    out: Seq<char>,
)
    ensures
        #[trigger] play_changes(windows, log, at, root, manifest, current, i, out)
            matches Outcome::Stop(Stop::Ask(op, words)) ==> looks(op, words) || compares(op, words)
            || stores(op, words),
    decreases current.len() - i,
{
    if i < current.len() {
        let path = path_joined(windows, root, current[i]);
        match play_hash_object(log, at, path) {
            Outcome::Done(cur, a) => match accepted_blob(manifest, current[i]) {
                Some(old) => {
                    if old == or_empty(cur) {
                        lemma_changes_compare(windows, log, a, root, manifest, current, i + 1, out);
                    } else {
                        match play_git_diff_blob_file(log, a, old, path) {
                            Outcome::Done(diff, b) => {
                                let more = out + changed_shown(current[i], diff);
                                lemma_changes_compare(
                                    windows,
                                    log,
                                    b,
                                    root,
                                    manifest,
                                    current,
                                    i + 1,
                                    more,
                                );
                            },
                            _ => {},
                        }
                    }
                },
                None => match asked_text(log, a, Op::ReadText, seq![path]) {
                    Outcome::Done(text, b) => {
                        let more = out + added_shown(current[i], text);
                        lemma_changes_compare(
                            windows,
                            log,
                            b,
                            root,
                            manifest,
                            current,
                            i + 1,
                            more,
                        );
                    },
                    _ => {},
                },
            },
            _ => {},
        }
    }
}

/// Showing what changed looks, stores what it compares, and says what it found. It changes
/// no file and no configuration.
pub proof fn law_diff_asks(windows: bool, log: Seq<Exchange>)
    ensures
        play_diff(windows, log, 0) matches Outcome::Stop(Stop::Ask(op, words)) ==> looks(op, words)
            || compares(op, words) || stores(op, words) || says(op),
{
    broadcast use {lemma_walk, lemma_consent_hash, lemma_changes_compare, lemma_signature_line};

}

// ---------------------------------------------------------------------------
// Setting up.
// ---------------------------------------------------------------------------

/// Writing shims writes files, and makes them executable.
broadcast proof fn lemma_shims_ask(
    windows: bool,
    log: Seq<Exchange>,
    at: int,
    dir: Seq<char>,
    i: int,
)
    requires
        0 <= i,
    ensures
        #[trigger] play_shims(windows, log, at, dir, i) matches Outcome::Stop(Stop::Ask(op, words))
            ==> exists|j: int| #[trigger] is_shim_request(windows, dir, op, words, j),
    decreases known_hooks().len() - i,
{
    if i < known_hooks().len() {
        assert(play_shim(windows, log, at, dir, known_hooks()[i]) matches Outcome::Stop(
            Stop::Ask(op, words),
        ) ==> is_shim_request(windows, dir, op, words, i));
        match play_shim(windows, log, at, dir, known_hooks()[i]) {
            Outcome::Done(_, next) => {
                lemma_shims_ask(windows, log, next, dir, i + 1);
            },
            _ => {},
        }
    }
}

/// Whether a request is to write the shim of the `j`-th hook, or to make it executable.
pub open spec fn is_shim_request(
    windows: bool,
    dir: Seq<char>,
    op: Op,
    words: Seq<Seq<char>>,
    j: int,
) -> bool {
    let hook = known_hooks()[j];
    let path = path_joined(windows, dir, hook);
    0 <= j < known_hooks().len() && (op == Op::WriteText && words == seq![path, shim(hook)] || op
        == Op::MakeExecutable && words == seq![path])
}

/// Setting up the machine asks for the home directory, makes the directory of the template,
/// writes shims there, points `git` at it, and says so.
pub proof fn law_installing_asks(windows: bool, log: Seq<Exchange>, op: Op, words: Seq<Seq<char>>)
    requires
        play_install(windows, log, 0) == Outcome::<()>::Stop(Stop::Ask(op, words)),
    ensures
        op == Op::EnvVar || says(op) || (play_home(log, 0) matches Outcome::Done(home, _) && {
            let dir = path_joined(windows, home, ".config/git-hooks/template"@);
            let hooks = path_joined(windows, dir, "hooks"@);
            ||| op == Op::CreateDirs && words == seq![hooks]
            ||| op == Op::Git && words.len() == 4 && words[0] == "config"@ && words[1]
                == "--global"@ && words[2] == "init.templateDir"@
            ||| exists|j: int| #[trigger] is_shim_request(windows, hooks, op, words, j)
        }),
{
    broadcast use lemma_shims_ask;

    law_places(words[3]);
}

/// Removing the setup asks for nothing but that.
pub proof fn law_uninstalling_asks(windows: bool, log: Seq<Exchange>, op: Op, words: Seq<Seq<char>>)
    requires
        play_uninstall(windows, log, 0) == Outcome::<()>::Stop(Stop::Ask(op, words)),
    ensures
        op == Op::EnvVar || says(op) || op == Op::Git && words == seq![
            "config"@,
            "--global"@,
            "--unset"@,
            "init.templateDir"@,
        ] || op == Op::RemoveDirs && (play_home(log, 1) matches Outcome::Done(home, _) && words
            == seq![path_joined(windows, home, ".config/git-hooks/template"@)]),
{
}

/// Copying shims looks, copies from the template, and makes what was copied executable.
broadcast proof fn lemma_copies_ask(
    windows: bool,
    log: Seq<Exchange>,
    at: int,
    from: Seq<char>,
    to: Seq<char>,
    i: int,
    installed: Seq<Seq<char>>,
    skipped: Seq<Seq<char>>,
)
    requires
        0 <= i,
    ensures
        #[trigger] play_copy_shims(windows, log, at, from, to, i, installed, skipped)
            matches Outcome::Stop(Stop::Ask(op, words)) ==> looks(op, words) || exists|j: int|
            0 <= j < known_hooks().len() && #[trigger] is_copy_request(
                op,
                words,
                path_joined(windows, from, known_hooks()[j]),
                path_joined(windows, to, known_hooks()[j]),
            ),
    decreases known_hooks().len() - i,
{
    if i < known_hooks().len() {
        let h = known_hooks()[i];
        let src = path_joined(windows, from, h);
        let target = path_joined(windows, to, h);
        assert(is_copy_request(Op::CopyFile, seq![src, target], src, target));
        assert(is_copy_request(Op::MakeExecutable, seq![target], src, target));
        match play_copy_shim(log, at, src, target) {
            Outcome::Done(None, next) => {
                lemma_copies_ask(windows, log, next, from, to, i + 1, installed, skipped);
            },
            Outcome::Done(Some(true), next) => {
                let more = installed.push(h);
                lemma_copies_ask(windows, log, next, from, to, i + 1, more, skipped);
            },
            Outcome::Done(Some(false), next) => {
                let more = skipped.push(h);
                lemma_copies_ask(windows, log, next, from, to, i + 1, installed, more);
            },
            _ => {},
        }
    }
}

/// Whether a request is to copy the shim of a hook, or to make it executable.
pub open spec fn is_copy_request(
    op: Op,
    words: Seq<Seq<char>>,
    src: Seq<char>,
    target: Seq<char>,
) -> bool {
    op == Op::CopyFile && words == seq![src, target] || op == Op::MakeExecutable && words
        == seq![target]
}

/// Adopting a repository looks, makes the directory for hooks, copies shims there, and says
/// so.
pub proof fn law_adopting_asks(windows: bool, log: Seq<Exchange>, op: Op, words: Seq<Seq<char>>)
    requires
        play_init(log, 0, windows) == Outcome::<()>::Stop(Stop::Ask(op, words)),
    ensures
        looks(op, words) || says(op) || op == Op::GitCapture && words == seq![
            "rev-parse"@,
            "--git-path"@,
            "hooks"@,
        ] || (play_home(log, 1) matches Outcome::Done(home, a) && play_hooks_path(
            log,
            a + 1,
            windows,
        ) matches Outcome::Done(Some(dir), _) && {
            let template = path_joined(windows, home, ".config/git-hooks/template"@);
            let from = path_joined(windows, template, "hooks"@);
            ||| op == Op::CreateDirs && words == seq![dir]
            ||| exists|j: int| 0 <= j < known_hooks().len() && #[trigger] is_copy_request(
                op,
                words,
                path_joined(windows, from, known_hooks()[j]),
                path_joined(windows, dir, known_hooks()[j]),
            )
        }),
{
    broadcast use lemma_copies_ask;

}

/// Adding a command looks, writes the configuration, says so, and records that it is
/// accepted.
pub proof fn law_adding_asks(
    windows: bool,
    log: Seq<Exchange>,
    hook: Seq<char>,
    cmd: Seq<char>,
    op: Op,
    words: Seq<Seq<char>>,
)
    requires
        play_add(windows, log, 0, hook, cmd) == Outcome::<()>::Stop(Stop::Ask(op, words)),
    ensures
        looks(op, words) || compares(op, words) || records(op, words) || says(op) || op
            == Op::WriteText && words.len() == 2 && (play_repo_root(log, 0) matches Outcome::Done(
            Some(root),
            _,
        ) && words[0] == path_joined(windows, root, ".githooks.toml"@)),
        !known_hooks().contains(hook) ==> op == Op::Report,
{
    broadcast use lemma_modest_record;

}

// ---------------------------------------------------------------------------
// Trusting.
// ---------------------------------------------------------------------------

/// Whether a request is to write the policy, or to make the directory that it is in.
pub open spec fn is_for_policy(
    windows: bool,
    log: Seq<Exchange>,
    op: Op,
    words: Seq<Seq<char>>,
) -> bool {
    exists|j: int| #[trigger]
        play_home(log, j) matches Outcome::Done(home, _) && (op == Op::CreateDirs && words == seq![
            path_joined(windows, home, ".config/git-hooks"@),
        ] || op == Op::WriteText && words.len() == 2 && words[0] == path_joined(
            windows,
            home,
            ".config/git-hooks/policy.toml"@,
        ))
}

/// Trusting a key looks, adds that key to the repository or writes the policy, and says so.
pub proof fn law_trusting_asks(
    windows: bool,
    log: Seq<Exchange>,
    args: Seq<Seq<char>>,
    key: Seq<char>,
    global: bool,
    op: Op,
    words: Seq<Seq<char>>,
)
    requires
        trust_args(args) == Some((key, global)),
        play_trust_cmd(windows, log, 0, args) == Outcome::<()>::Stop(Stop::Ask(op, words)),
    ensures
        looks(op, words) || says(op) || !global && op == Op::Git && words == seq![
            "config"@,
            "--local"@,
            "--add"@,
            "hooks.trustedKey"@,
            key,
        ] || global && is_for_policy(windows, log, op, words),
{
    if global {
        let a = play_home(log, 0)->Done_1;
        assert(play_home(log, a + 1) == play_home(log, a + 1));
    }
}

/// Adding keys adds those.
proof fn lemma_keys_ask(log: Seq<Exchange>, at: int, keys: Seq<Seq<char>>, i: int)
    requires
        0 <= i,
    ensures
        play_add_keys(log, at, keys, i) matches Outcome::Stop(Stop::Ask(op, words)) ==> op
            == Op::Report || op == Op::Git && exists|j: int|
            0 <= j < keys.len() && words == key_addition(#[trigger] keys[j]),
    decreases keys.len() - i,
{
    if i < keys.len() {
        match play_git(log, at, key_addition(keys[i])) {
            Outcome::Done(_, next) => {
                lemma_keys_ask(log, next, keys, i + 1);
            },
            _ => {},
        }
    }
}

/// No longer trusting a key looks, takes all keys of the repository out and adds the others
/// again, or writes the policy, and says so. The key itself is never added.
pub proof fn law_untrusting_asks(
    windows: bool,
    log: Seq<Exchange>,
    args: Seq<Seq<char>>,
    key: Seq<char>,
    global: bool,
    op: Op,
    words: Seq<Seq<char>>,
)
    requires
        trust_args(args) == Some((key, global)),
        play_untrust_cmd(windows, log, 0, args) == Outcome::<()>::Stop(Stop::Ask(op, words)),
    ensures
        looks(op, words) || says(op) || !global && op == Op::GitCapture && words == seq![
            "config"@,
            "--local"@,
            "--unset-all"@,
            "hooks.trustedKey"@,
        ] || !global && op == Op::Git && (exists|other: Seq<char>|
            other != key && #[trigger] key_addition(other) == words) || global && is_for_policy(
            windows,
            log,
            op,
            words,
        ),
{
    if global {
        let a = play_home(log, 0)->Done_1;
        assert(play_home(log, a + 1) == play_home(log, a + 1));
    } else {
        match play_local_trusted_keys(log, 1) {
            Outcome::Done(keys, b) => {
                let rest = keys_other_than(keys, key);
                lemma_keys_ask(log, b + 1, rest, 0);
                lemma_others(keys, key);
            },
            _ => {},
        }
    }
}

/// The key that is left out is not among the others.
proof fn lemma_others(keys: Seq<Seq<char>>, key: Seq<char>)
    ensures
        forall|j: int|
            0 <= j < keys_other_than(keys, key).len() ==> #[trigger] keys_other_than(keys, key)[j]
                != key,
{
    let rest = keys_other_than(keys, key);
    assert forall|j: int| 0 <= j < rest.len() implies #[trigger] rest[j] != key by {
        keys.lemma_filter_pred(other_than(key), j);
    }
}

// ---------------------------------------------------------------------------
// Signing.
// ---------------------------------------------------------------------------

/// Signing looks, has `ssh-keygen` sign and read the key, writes the signature, adds to the
/// list of signers, and says so: below `.githooks/trust` alone is anything written.
pub proof fn law_signing_asks(
    windows: bool,
    log: Seq<Exchange>,
    args: Seq<Seq<char>>,
    op: Op,
    words: Seq<Seq<char>>,
)
    requires
        play_sign(windows, log, 0, args) == Outcome::<()>::Stop(Stop::Ask(op, words)),
    ensures
        looks(op, words) || says(op) || op == Op::SshFeed || op == Op::SshCapture || op
            == Op::GitCapture && words == seq!["config"@, "user.email"@] || (play_repo_root(log, 0)
            matches Outcome::Done(Some(root), _) && {
            let trust = path_joined(windows, path_joined(windows, root, ".githooks"@), "trust"@);
            ||| op == Op::CreateDirs && words == seq![trust]
            ||| op == Op::WriteText && words.len() == 2 && words[0] == path_joined(
                windows,
                trust,
                "hooks.sig"@,
            )
            ||| op == Op::AppendText && words.len() == 2 && words[0] == path_joined(
                windows,
                trust,
                "allowed_signers"@,
            )
        }),
{
    broadcast use {lemma_walk, lemma_blobs};

}

} // verus!
