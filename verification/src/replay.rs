//! Going on after a reply. A command is called again with one more exchange each
//! time; what is shown here is that it then goes on from where it stopped.
use crate::commands::{
    play_add, play_consent, play_copy_shim, play_copy_shims, play_diff, play_init, play_install,
    play_shim, play_shims, play_show_changes, play_show_signature, play_status, play_status_end,
    play_uninstall, usage_stop,
};
use crate::config::{command_for, hook_cmd, known_hooks};
use crate::consent::{
    manifest_addition, manifest_line, play_manifest_from, play_read_manifest, play_record_consent,
    play_store_object,
};
use crate::content::{
    or_empty, paths_in, play_blobs, play_consent_hash, play_hash_object, play_walk,
};
use crate::document::{Entries, Node};
use crate::git::{play_git, play_home, play_need_root, play_repo_root, play_say, play_tell};
use crate::hook::{
    hook_notice, play_accepted_before, play_auto_accept, play_command, play_commands,
    play_configured, play_may_run, play_policy_or_prompt, play_resolve_new_consent, play_run_hook,
};
use crate::paths::{path_joined, path_rel};
use crate::prompt::{
    accepted_blob, added_shown, changed_shown, play_answer, play_change_prompt_body, play_changes,
    play_git_diff_blob_file, play_prompt_body, play_prompt_consent, play_refs,
    play_runtime_ref_warning,
};
use crate::signing::{
    play_add_keys, play_announce_signer, play_list_signer, play_make_signature, play_principal,
    play_sign, play_ssh_capture, play_trust_cmd, play_trust_globally, play_trust_locally,
    play_untrust_cmd, play_untrust_globally, play_untrust_locally, play_write_policy,
};
use crate::text::texts;
use crate::trust::{
    key_addition, play_key_trusted, play_local_trusted_keys, play_policy, play_signature_line,
    play_signature_status, play_ssh_verify, play_try_principals, Signed,
};
use crate::world::{asked, asked_flag, asked_listing, asked_text, Exchange, Op, Outcome, Stop};
use crate::program::{ending, hook_ending, play_program};
use vstd::prelude::*;

verus! {

/// Whether an exchange is about the given request.
pub open spec fn fits(e: Exchange, op: Op, words: Seq<Seq<char>>) -> bool {
    e.request.op == op && texts(e.request.words@) == words
}

/// Whether a part of a command that starts where the exchanges end is not astray,
/// and does not get past the end.
pub open spec fn fresh<T>(log: Seq<Exchange>, at: int, o: Outcome<T>) -> bool {
    at >= log.len() ==> match o {
        Outcome::Done(_, k) => k == at,
        Outcome::Stop(s) => s != Stop::Astray,
    }
}

/// Whether a part of a command that came to `before` comes to the fitting `after`
/// with one more exchange: if it was through, or had ended, nothing changes; and if
/// it was asking for just this, it gets past the end, or stops without going
/// astray.
pub open spec fn steady<T>(
    log: Seq<Exchange>,
    e: Exchange,
    at: int,
    before: Outcome<T>,
    after: Outcome<T>,
) -> bool {
    0 <= at <= log.len() ==> match before {
        Outcome::Done(_, k) => after == before && at <= k <= log.len(),
        Outcome::Stop(Stop::Ask(op, words)) => fits(e, op, words) ==> match after {
            Outcome::Done(_, k) => k == log.len() + 1,
            Outcome::Stop(s) => s != Stop::Astray,
        },
        Outcome::Stop(s) => after == before,
    }
}

// ---------------------------------------------------------------------------
// The parts of commands that loop, from the end on.
// ---------------------------------------------------------------------------

/// Walking directories from the end on.
broadcast proof fn fresh_walk(
    windows: bool,
    log: Seq<Exchange>,
    at: int,
    pending: Seq<Seq<char>>,
    files: Seq<Seq<char>>,
)
    ensures
        fresh(log, at, #[trigger] play_walk(windows, log, at, pending, files)),
{
}

/// Asking for blobs from the end on.
broadcast proof fn fresh_blobs(
    windows: bool,
    log: Seq<Exchange>,
    at: int,
    root: Seq<char>,
    files: Seq<Seq<char>>,
    exclude_trust: bool,
    i: int,
    out: Seq<(Seq<char>, Seq<char>)>,
)
    ensures
        fresh(log, at, #[trigger] play_blobs(windows, log, at, root, files, exclude_trust, i, out)),
    decreases files.len() - i,
{
    if i < files.len() {
        fresh_blobs(windows, log, at, root, files, exclude_trust, i + 1, out);
    }
}

/// Writing the manifest from the end on.
broadcast proof fn fresh_manifest_from(
    windows: bool,
    log: Seq<Exchange>,
    at: int,
    root: Seq<char>,
    files: Seq<Seq<char>>,
    i: int,
)
    ensures
        fresh(log, at, #[trigger] play_manifest_from(windows, log, at, root, files, i)),
{
}

/// Trying principals from the end on.
broadcast proof fn fresh_try_principals(
    log: Seq<Exchange>,
    at: int,
    signers: Seq<char>,
    sig: Seq<char>,
    content: Seq<char>,
    list: Seq<Seq<char>>,
    i: int,
)
    ensures
        fresh(log, at, #[trigger] play_try_principals(log, at, signers, sig, content, list, i)),
{
}

/// Comparing files with the manifest from the end on.
broadcast proof fn fresh_changes(
    windows: bool,
    log: Seq<Exchange>,
    at: int,
    root: Seq<char>,
    manifest: Seq<(Seq<char>, Seq<char>)>,
    current: Seq<Seq<char>>,
    i: int,
    out: Seq<char>,
)
    ensures
        fresh(log, at, #[trigger] play_changes(windows, log, at, root, manifest, current, i, out)),
{
}

/// Looking for referenced files from the end on.
broadcast proof fn fresh_refs(
    windows: bool,
    log: Seq<Exchange>,
    at: int,
    root: Seq<char>,
    list: Seq<Seq<char>>,
    i: int,
    out: Seq<Seq<char>>,
)
    ensures
        fresh(log, at, #[trigger] play_refs(windows, log, at, root, list, i, out)),
    decreases list.len() - i,
{
    if i < list.len() {
        fresh_refs(windows, log, at, root, list, i + 1, out);
    }
}

/// Writing shims from the end on.
broadcast proof fn fresh_shims(windows: bool, log: Seq<Exchange>, at: int, dir: Seq<char>, i: int)
    ensures
        fresh(log, at, #[trigger] play_shims(windows, log, at, dir, i)),
{
}

/// Copying shims from the end on.
broadcast proof fn fresh_copy_shims(
    windows: bool,
    log: Seq<Exchange>,
    at: int,
    from: Seq<char>,
    to: Seq<char>,
    i: int,
    installed: Seq<Seq<char>>,
    skipped: Seq<Seq<char>>,
)
    ensures
        fresh(
            log,
            at,
            #[trigger] play_copy_shims(windows, log, at, from, to, i, installed, skipped),
        ),
{
}

/// Trusting keys one after another from the end on.
broadcast proof fn fresh_add_keys(log: Seq<Exchange>, at: int, keys: Seq<Seq<char>>, i: int)
    ensures
        fresh(log, at, #[trigger] play_add_keys(log, at, keys, i)),
{
}

/// Running commands from the end on.
broadcast proof fn fresh_commands(
    log: Seq<Exchange>,
    at: int,
    root: Seq<char>,
    hook: Seq<char>,
    args: Seq<Seq<char>>,
    list: Seq<Node>,
    staged: Seq<Seq<char>>,
    i: int,
)
    ensures
        fresh(log, at, #[trigger] play_commands(log, at, root, hook, args, list, staged, i)),
    decreases list.len() - i,
{
    if i < list.len() && hook_cmd(list[i]) is None {
        fresh_commands(log, at, root, hook, args, list, staged, i + 1);
    }
}

// ---------------------------------------------------------------------------
// Asking, with one more exchange.
// ---------------------------------------------------------------------------

/// Asking with one more exchange.
broadcast proof fn steady_asked(
    log: Seq<Exchange>,
    e: Exchange,
    at: int,
    op: Op,
    words: Seq<Seq<char>>,
)
    ensures
        steady(
            log,
            e,
            at,
            asked(log, at, op, words),
            #[trigger] asked(log.push(e), at, op, words),
        ),
{
    if 0 <= at < log.len() {
        assert(log.push(e)[at] == log[at]);
    }
}

// ---------------------------------------------------------------------------
// The parts of commands that loop, with one more exchange.
// ---------------------------------------------------------------------------

/// Walking directories with one more exchange.
broadcast proof fn steady_walk(
    windows: bool,
    log: Seq<Exchange>,
    e: Exchange,
    at: int,
    pending: Seq<Seq<char>>,
    files: Seq<Seq<char>>,
)
    ensures
        steady(
            log,
            e,
            at,
            play_walk(windows, log, at, pending, files),
            #[trigger] play_walk(windows, log.push(e), at, pending, files),
        ),
    decreases log.len() - at, pending.len(),
{
    broadcast use steady_asked;

    let more = log.push(e);
    if pending.len() > 0 && 0 <= at < more.len() {
        match asked_listing(more, at, pending.last()) {
            Outcome::Done((dirs, found), next) => {
                if next <= log.len() {
                    steady_walk(
                        windows,
                        log,
                        e,
                        next,
                        pending.drop_last() + paths_in(windows, pending.last(), dirs),
                        files + paths_in(windows, pending.last(), found),
                    );
                }
                fresh_walk(
                    windows,
                    more,
                    next,
                    pending.drop_last() + paths_in(windows, pending.last(), dirs),
                    files + paths_in(windows, pending.last(), found),
                );
            },
            _ => {},
        }
    }
}

/// Asking for blobs with one more exchange.
broadcast proof fn steady_blobs(
    windows: bool,
    log: Seq<Exchange>,
    e: Exchange,
    at: int,
    root: Seq<char>,
    files: Seq<Seq<char>>,
    exclude_trust: bool,
    i: int,
    out: Seq<(Seq<char>, Seq<char>)>,
)
    ensures
        steady(
            log,
            e,
            at,
            play_blobs(windows, log, at, root, files, exclude_trust, i, out),
            #[trigger] play_blobs(windows, log.push(e), at, root, files, exclude_trust, i, out),
        ),
    decreases files.len() - i,
{
    broadcast use steady_asked;

    let more = log.push(e);
    if i < files.len() {
        steady_blobs(windows, log, e, at, root, files, exclude_trust, i + 1, out);
        fresh_blobs(windows, more, at, root, files, exclude_trust, i + 1, out);
        match play_hash_object(more, at, files[i]) {
            Outcome::Done(blob, k) => {
                steady_blobs(
                    windows,
                    log,
                    e,
                    k,
                    root,
                    files,
                    exclude_trust,
                    i + 1,
                    out.push((path_rel(windows, root, files[i]), or_empty(blob))),
                );
                fresh_blobs(
                    windows,
                    more,
                    k,
                    root,
                    files,
                    exclude_trust,
                    i + 1,
                    out.push((path_rel(windows, root, files[i]), or_empty(blob))),
                );
            },
            _ => {},
        }
    }
}

/// Writing the manifest with one more exchange.
broadcast proof fn steady_manifest_from(
    windows: bool,
    log: Seq<Exchange>,
    e: Exchange,
    at: int,
    root: Seq<char>,
    files: Seq<Seq<char>>,
    i: int,
)
    ensures
        steady(
            log,
            e,
            at,
            play_manifest_from(windows, log, at, root, files, i),
            #[trigger] play_manifest_from(windows, log.push(e), at, root, files, i),
        ),
    decreases files.len() - i,
{
    broadcast use steady_asked;

    let more = log.push(e);
    if i < files.len() {
        match play_store_object(more, at, files[i]) {
            Outcome::Done(None, k) => {
                steady_manifest_from(windows, log, e, k, root, files, i + 1);
                fresh_manifest_from(windows, more, k, root, files, i + 1);
            },
            Outcome::Done(Some(blob), k) => {
                match play_git(more,
                    k,
                    manifest_addition(manifest_line(path_rel(windows, root, files[i]), blob)),
                ) {
                    Outcome::Done(_, k) => {
                        steady_manifest_from(windows, log, e, k, root, files, i + 1);
                        fresh_manifest_from(windows, more, k, root, files, i + 1);
                    },
                    _ => {},
                }
            },
            _ => {},
        }
    }
}

/// Trying principals with one more exchange.
broadcast proof fn steady_try_principals(
    log: Seq<Exchange>,
    e: Exchange,
    at: int,
    signers: Seq<char>,
    sig: Seq<char>,
    content: Seq<char>,
    list: Seq<Seq<char>>,
    i: int,
)
    ensures
        steady(
            log,
            e,
            at,
            play_try_principals(log, at, signers, sig, content, list, i),
            #[trigger] play_try_principals(log.push(e), at, signers, sig, content, list, i),
        ),
    decreases list.len() - i,
{
    broadcast use steady_asked;

    let more = log.push(e);
    if i < list.len() {
        match play_ssh_verify(more, at, signers, list[i], sig, content) {
            Outcome::Done(None, k) => {
                steady_try_principals(log, e, k, signers, sig, content, list, i + 1);
                fresh_try_principals(more, k, signers, sig, content, list, i + 1);
            },
            _ => {},
        }
    }
}

/// Comparing files with the manifest with one more exchange.
broadcast proof fn steady_changes(
    windows: bool,
    log: Seq<Exchange>,
    e: Exchange,
    at: int,
    root: Seq<char>,
    manifest: Seq<(Seq<char>, Seq<char>)>,
    current: Seq<Seq<char>>,
    i: int,
    out: Seq<char>,
)
    ensures
        steady(
            log,
            e,
            at,
            play_changes(windows, log, at, root, manifest, current, i, out),
            #[trigger] play_changes(windows, log.push(e), at, root, manifest, current, i, out),
        ),
    decreases current.len() - i,
{
    broadcast use steady_asked;

    let more = log.push(e);
    if i < current.len() {
        let path = path_joined(windows, root, current[i]);
        match play_hash_object(more, at, path) {
            Outcome::Done(cur, k) => {
                match accepted_blob(manifest, current[i]) {
                    Some(old) => {
                        steady_changes(windows, log, e, k, root, manifest, current, i + 1, out);
                        fresh_changes(windows, more, k, root, manifest, current, i + 1, out);
                        match play_git_diff_blob_file(more, k, old, path) {
                            Outcome::Done(diff, k) => {
                                steady_changes(
                                    windows,
                                    log,
                                    e,
                                    k,
                                    root,
                                    manifest,
                                    current,
                                    i + 1,
                                    out + changed_shown(current[i], diff),
                                );
                                fresh_changes(
                                    windows,
                                    more,
                                    k,
                                    root,
                                    manifest,
                                    current,
                                    i + 1,
                                    out + changed_shown(current[i], diff),
                                );
                            },
                            _ => {},
                        }
                    },
                    None => {
                        match asked_text(more, k, Op::ReadText, seq![path]) {
                            Outcome::Done(text, k) => {
                                steady_changes(
                                    windows,
                                    log,
                                    e,
                                    k,
                                    root,
                                    manifest,
                                    current,
                                    i + 1,
                                    out + added_shown(current[i], text),
                                );
                                fresh_changes(
                                    windows,
                                    more,
                                    k,
                                    root,
                                    manifest,
                                    current,
                                    i + 1,
                                    out + added_shown(current[i], text),
                                );
                            },
                            _ => {},
                        }
                    },
                }
            },
            _ => {},
        }
    }
}

/// Looking for referenced files with one more exchange.
broadcast proof fn steady_refs(
    windows: bool,
    log: Seq<Exchange>,
    e: Exchange,
    at: int,
    root: Seq<char>,
    list: Seq<Seq<char>>,
    i: int,
    out: Seq<Seq<char>>,
)
    ensures
        steady(
            log,
            e,
            at,
            play_refs(windows, log, at, root, list, i, out),
            #[trigger] play_refs(windows, log.push(e), at, root, list, i, out),
        ),
    decreases list.len() - i,
{
    broadcast use steady_asked;

    let more = log.push(e);
    if i < list.len() {
        steady_refs(windows, log, e, at, root, list, i + 1, out);
        match asked_flag(more, at, Op::IsFile, seq![path_joined(windows, root, list[i])]) {
            Outcome::Done(there, k) => {
                steady_refs(
                    windows,
                    log,
                    e,
                    k,
                    root,
                    list,
                    i + 1,
                    if there {
                        out.push(list[i])
                    } else {
                        out
                    },
                );
                fresh_refs(
                    windows,
                    more,
                    k,
                    root,
                    list,
                    i + 1,
                    if there {
                        out.push(list[i])
                    } else {
                        out
                    },
                );
            },
            _ => {},
        }
    }
}

/// Writing shims with one more exchange.
broadcast proof fn steady_shims(
    windows: bool,
    log: Seq<Exchange>,
    e: Exchange,
    at: int,
    dir: Seq<char>,
    i: int,
)
    ensures
        steady(
            log,
            e,
            at,
            play_shims(windows, log, at, dir, i),
            #[trigger] play_shims(windows, log.push(e), at, dir, i),
        ),
    decreases known_hooks().len() - i,
{
    broadcast use steady_asked;

    let more = log.push(e);
    if i < known_hooks().len() {
        match play_shim(windows, more, at, dir, known_hooks()[i]) {
            Outcome::Done(_, k) => {
                steady_shims(windows, log, e, k, dir, i + 1);
                fresh_shims(windows, more, k, dir, i + 1);
            },
            _ => {},
        }
    }
}

/// Copying shims with one more exchange.
broadcast proof fn steady_copy_shims(
    windows: bool,
    log: Seq<Exchange>,
    e: Exchange,
    at: int,
    from: Seq<char>,
    to: Seq<char>,
    i: int,
    installed: Seq<Seq<char>>,
    skipped: Seq<Seq<char>>,
)
    ensures
        steady(
            log,
            e,
            at,
            play_copy_shims(windows, log, at, from, to, i, installed, skipped),
            #[trigger] play_copy_shims(windows, log.push(e), at, from, to, i, installed, skipped),
        ),
    decreases known_hooks().len() - i,
{
    broadcast use steady_asked;

    let more = log.push(e);
    if i < known_hooks().len() {
        let hook = known_hooks()[i];
        match play_copy_shim(
            more,
            at,
            path_joined(windows, from, hook),
            path_joined(windows, to, hook),
        ) {
            Outcome::Stop(_) => {},
            Outcome::Done(None, k) => {
                steady_copy_shims(windows, log, e, k, from, to, i + 1, installed, skipped);
                fresh_copy_shims(windows, more, k, from, to, i + 1, installed, skipped);
            },
            Outcome::Done(Some(true), k) => {
                steady_copy_shims(
                    windows,
                    log,
                    e,
                    k,
                    from,
                    to,
                    i + 1,
                    installed.push(hook),
                    skipped,
                );
                fresh_copy_shims(windows, more, k, from, to, i + 1, installed.push(hook), skipped);
            },
            Outcome::Done(Some(false), k) => {
                steady_copy_shims(
                    windows,
                    log,
                    e,
                    k,
                    from,
                    to,
                    i + 1,
                    installed,
                    skipped.push(hook),
                );
                fresh_copy_shims(windows, more, k, from, to, i + 1, installed, skipped.push(hook));
            },
        }
    }
}

/// Trusting keys with one more exchange.
broadcast proof fn steady_add_keys(
    log: Seq<Exchange>,
    e: Exchange,
    at: int,
    keys: Seq<Seq<char>>,
    i: int,
)
    ensures
        steady(
            log,
            e,
            at,
            play_add_keys(log, at, keys, i),
            #[trigger] play_add_keys(log.push(e), at, keys, i),
        ),
    decreases keys.len() - i,
{
    broadcast use steady_asked;

    let more = log.push(e);
    if i < keys.len() {
        match play_git(more, at, key_addition(keys[i])) {
            Outcome::Done(_, k) => {
                steady_add_keys(log, e, k, keys, i + 1);
                fresh_add_keys(more, k, keys, i + 1);
            },
            _ => {},
        }
    }
}

/// Running commands with one more exchange.
broadcast proof fn steady_commands(
    log: Seq<Exchange>,
    e: Exchange,
    at: int,
    root: Seq<char>,
    hook: Seq<char>,
    args: Seq<Seq<char>>,
    list: Seq<Node>,
    staged: Seq<Seq<char>>,
    i: int,
)
    ensures
        steady(
            log,
            e,
            at,
            play_commands(log, at, root, hook, args, list, staged, i),
            #[trigger] play_commands(log.push(e), at, root, hook, args, list, staged, i),
        ),
    decreases list.len() - i,
{
    broadcast use steady_asked;

    let more = log.push(e);
    if i < list.len() {
        match hook_cmd(list[i]) {
            None => {
                steady_commands(log, e, at, root, hook, args, list, staged, i + 1);
                fresh_commands(more, at, root, hook, args, list, staged, i + 1);
            },
            Some(c) => {
                match command_for(c, staged) {
                    None => {
                        match play_tell(more,
                            at,
                            hook_notice(hook, "skipped (no matching staged files): "@, c.run),
                        ) {
                            Outcome::Done(_, k) => {
                                steady_commands(log, e, k, root, hook, args, list, staged, i + 1);
                                fresh_commands(more, k, root, hook, args, list, staged, i + 1);
                            },
                            _ => {},
                        }
                    },
                    Some(command) => {
                        match play_command(more, at, root, hook, args, c.run, command) {
                            Outcome::Done(code, k) => {
                                steady_commands(log, e, k, root, hook, args, list, staged, i + 1);
                                fresh_commands(more, k, root, hook, args, list, staged, i + 1);
                            },
                            _ => {},
                        }
                    },
                }
            },
        }
    }
}

// ---------------------------------------------------------------------------
// Commands and their parts.
// ---------------------------------------------------------------------------

/// Writing to standard output with one more exchange.
broadcast proof fn steady_say(log: Seq<Exchange>, e: Exchange, at: int, text: Seq<char>)
    ensures
        steady(
            log,
            e,
            at,
            play_say(log, at, text),
            #[trigger] play_say(log.push(e), at, text),
        ),
{
    broadcast use steady_asked;

}

/// Running `git` for its effect with one more exchange.
broadcast proof fn steady_git(log: Seq<Exchange>, e: Exchange, at: int, args: Seq<Seq<char>>)
    ensures
        steady(
            log,
            e,
            at,
            play_git(log, at, args),
            #[trigger] play_git(log.push(e), at, args),
        ),
{
    broadcast use steady_asked;

}

/// Finding the home directory with one more exchange.
broadcast proof fn steady_home(log: Seq<Exchange>, e: Exchange, at: int)
    ensures
        steady(
            log,
            e,
            at,
            play_home(log, at),
            #[trigger] play_home(log.push(e), at),
        ),
{
    broadcast use steady_asked;

}

/// Finding the repository with one more exchange.
broadcast proof fn steady_repo_root(log: Seq<Exchange>, e: Exchange, at: int)
    ensures
        steady(
            log,
            e,
            at,
            play_repo_root(log, at),
            #[trigger] play_repo_root(log.push(e), at),
        ),
{
    broadcast use steady_asked;

}

/// Finding the repository that is needed with one more exchange.
broadcast proof fn steady_need_root(log: Seq<Exchange>, e: Exchange, at: int)
    ensures
        steady(
            log,
            e,
            at,
            play_need_root(log, at),
            #[trigger] play_need_root(log.push(e), at),
        ),
{
    broadcast use {steady_asked, steady_repo_root};

}

/// Forming the consent hash with one more exchange.
broadcast proof fn steady_consent_hash(windows: bool, log: Seq<Exchange>, e: Exchange, at: int)
    ensures
        steady(
            log,
            e,
            at,
            play_consent_hash(windows, log, at),
            #[trigger] play_consent_hash(windows, log.push(e), at),
        ),
{
    broadcast use {steady_asked, steady_walk, steady_blobs, fresh_walk, fresh_blobs};

}

/// Recording a decision with one more exchange.
broadcast proof fn steady_record_consent(
    windows: bool,
    log: Seq<Exchange>,
    e: Exchange,
    at: int,
    accept: bool,
)
    ensures
        steady(
            log,
            e,
            at,
            play_record_consent(windows, log, at, accept),
            #[trigger] play_record_consent(windows, log.push(e), at, accept),
        ),
{
    broadcast use {
        steady_asked, steady_consent_hash, steady_walk, steady_manifest_from, fresh_walk,
        fresh_manifest_from,
    };

}

/// Checking the signature with one more exchange.
broadcast proof fn steady_signature_status(
    windows: bool,
    log: Seq<Exchange>,
    e: Exchange,
    at: int,
    root: Seq<char>,
)
    ensures
        steady(
            log,
            e,
            at,
            play_signature_status(windows, log, at, root),
            #[trigger] play_signature_status(windows, log.push(e), at, root),
        ),
{
    broadcast use {
        steady_asked, steady_walk, steady_blobs, steady_try_principals, fresh_walk, fresh_blobs,
        fresh_try_principals,
    };

}

/// Saying what the signature is with one more exchange.
#[verifier::rlimit(40)]
#[verifier::spinoff_prover]
broadcast proof fn steady_signature_line(
    windows: bool,
    log: Seq<Exchange>,
    e: Exchange,
    at: int,
    root: Seq<char>,
)
    ensures
        steady(
            log,
            e,
            at,
            play_signature_line(windows, log, at, root),
            #[trigger] play_signature_line(windows, log.push(e), at, root),
        ),
{
    broadcast use {steady_asked, steady_signature_status};

}

/// Forming the body of a prompt about changed content with one more exchange.
broadcast proof fn steady_change_prompt_body(
    windows: bool,
    log: Seq<Exchange>,
    e: Exchange,
    at: int,
    root: Seq<char>,
    manifest: Seq<(Seq<char>, Seq<char>)>,
)
    ensures
        steady(
            log,
            e,
            at,
            play_change_prompt_body(windows, log, at, root, manifest),
            #[trigger] play_change_prompt_body(windows, log.push(e), at, root, manifest),
        ),
{
    broadcast use {steady_asked, steady_walk, steady_changes, fresh_walk, fresh_changes};

}

/// Forming the body of the prompt with one more exchange.
broadcast proof fn steady_prompt_body(
    windows: bool,
    log: Seq<Exchange>,
    e: Exchange,
    at: int,
    root: Seq<char>,
    raw: Seq<char>,
)
    ensures
        steady(
            log,
            e,
            at,
            play_prompt_body(windows, log, at, root, raw),
            #[trigger] play_prompt_body(windows, log.push(e), at, root, raw),
        ),
{
    broadcast use {steady_asked, steady_walk, steady_change_prompt_body, fresh_walk};

}

/// Forming the warning about referenced files with one more exchange.
broadcast proof fn steady_runtime_ref_warning(
    windows: bool,
    log: Seq<Exchange>,
    e: Exchange,
    at: int,
    root: Seq<char>,
)
    ensures
        steady(
            log,
            e,
            at,
            play_runtime_ref_warning(windows, log, at, root),
            #[trigger] play_runtime_ref_warning(windows, log.push(e), at, root),
        ),
{
    broadcast use {steady_asked, steady_refs, fresh_refs};

}

/// Acting on an answer with one more exchange.
#[verifier::rlimit(40)]
#[verifier::spinoff_prover]
broadcast proof fn steady_answer(
    windows: bool,
    log: Seq<Exchange>,
    e: Exchange,
    at: int,
    signed: Signed,
    answer: Seq<char>,
)
    ensures
        steady(
            log,
            e,
            at,
            play_answer(windows, log, at, signed, answer),
            #[trigger] play_answer(windows, log.push(e), at, signed, answer),
        ),
{
    broadcast use {steady_asked, steady_record_consent};

}

/// Asking the user with one more exchange.
broadcast proof fn steady_prompt_consent(
    log: Seq<Exchange>,
    e: Exchange,
    at: int,
    windows: bool,
    root: Seq<char>,
    raw: Seq<char>,
    signed: Signed,
)
    ensures
        steady(
            log,
            e,
            at,
            play_prompt_consent(log, at, windows, root, raw, signed),
            #[trigger] play_prompt_consent(log.push(e), at, windows, root, raw, signed),
        ),
{
    broadcast use {steady_asked, steady_prompt_body, steady_runtime_ref_warning, steady_answer};

}

/// Resolving without a trusted signature with one more exchange.
broadcast proof fn steady_policy_or_prompt(
    log: Seq<Exchange>,
    e: Exchange,
    at: int,
    windows: bool,
    root: Seq<char>,
    raw: Seq<char>,
    signed: Signed,
)
    ensures
        steady(
            log,
            e,
            at,
            play_policy_or_prompt(log, at, windows, root, raw, signed),
            #[trigger] play_policy_or_prompt(log.push(e), at, windows, root, raw, signed),
        ),
{
    broadcast use {steady_asked, steady_prompt_consent};

}

/// Accepting on the strength of a trusted signature with one more exchange.
broadcast proof fn steady_auto_accept(
    windows: bool,
    log: Seq<Exchange>,
    e: Exchange,
    at: int,
    principal: Seq<char>,
    fingerprint: Seq<char>,
)
    ensures
        steady(
            log,
            e,
            at,
            play_auto_accept(windows, log, at, principal, fingerprint),
            #[trigger] play_auto_accept(windows, log.push(e), at, principal, fingerprint),
        ),
{
    broadcast use {steady_asked, steady_record_consent};

}

/// Asking whether a key is trusted with one more exchange.
broadcast proof fn steady_key_trusted(
    windows: bool,
    log: Seq<Exchange>,
    e: Exchange,
    at: int,
    fingerprint: Seq<char>,
)
    ensures
        steady(
            log,
            e,
            at,
            play_key_trusted(windows, log, at, fingerprint),
            #[trigger] play_key_trusted(windows, log.push(e), at, fingerprint),
        ),
{
    broadcast use steady_asked;

}

/// Resolving consent to new content with one more exchange.
broadcast proof fn steady_resolve_new_consent(
    log: Seq<Exchange>,
    e: Exchange,
    at: int,
    windows: bool,
    root: Seq<char>,
    raw: Seq<char>,
)
    ensures
        steady(
            log,
            e,
            at,
            play_resolve_new_consent(log, at, windows, root, raw),
            #[trigger] play_resolve_new_consent(log.push(e), at, windows, root, raw),
        ),
{
    broadcast use {
        steady_asked, steady_signature_status, steady_key_trusted, steady_auto_accept,
        steady_policy_or_prompt,
    };

}

/// Going by a recorded acceptance with one more exchange.
broadcast proof fn steady_accepted_before(
    windows: bool,
    log: Seq<Exchange>,
    e: Exchange,
    at: int,
    root: Seq<char>,
)
    ensures
        steady(
            log,
            e,
            at,
            play_accepted_before(windows, log, at, root),
            #[trigger] play_accepted_before(windows, log.push(e), at, root),
        ),
{
    broadcast use {steady_asked, steady_signature_status, steady_key_trusted};

}

/// Asking for consent with one more exchange.
broadcast proof fn steady_may_run(
    log: Seq<Exchange>,
    e: Exchange,
    at: int,
    windows: bool,
    root: Seq<char>,
    raw: Seq<char>,
    hash: Seq<char>,
)
    ensures
        steady(
            log,
            e,
            at,
            play_may_run(log, at, windows, root, raw, hash),
            #[trigger] play_may_run(log.push(e), at, windows, root, raw, hash),
        ),
{
    broadcast use {steady_asked, steady_accepted_before, steady_resolve_new_consent};

}

/// Running a configured hook with one more exchange.
broadcast proof fn steady_configured(
    log: Seq<Exchange>,
    e: Exchange,
    at: int,
    root: Seq<char>,
    raw: Seq<char>,
    hook: Seq<char>,
    args: Seq<Seq<char>>,
)
    ensures
        steady(
            log,
            e,
            at,
            play_configured(log, at, root, raw, hook, args),
            #[trigger] play_configured(log.push(e), at, root, raw, hook, args),
        ),
{
    broadcast use {steady_asked, steady_commands, fresh_commands};

}

/// Running a hook with one more exchange.
broadcast proof fn steady_run_hook(
    log: Seq<Exchange>,
    e: Exchange,
    at: int,
    windows: bool,
    hook: Seq<char>,
    args: Seq<Seq<char>>,
)
    ensures
        steady(
            log,
            e,
            at,
            play_run_hook(log, at, windows, hook, args),
            #[trigger] play_run_hook(log.push(e), at, windows, hook, args),
        ),
{
    broadcast use {steady_asked, steady_consent_hash, steady_may_run, steady_configured};

}

/// The global setup with one more exchange.
broadcast proof fn steady_install(windows: bool, log: Seq<Exchange>, e: Exchange, at: int)
    ensures
        steady(
            log,
            e,
            at,
            play_install(windows, log, at),
            #[trigger] play_install(windows, log.push(e), at),
        ),
{
    broadcast use {steady_asked, steady_shims, steady_home, steady_git, steady_say, fresh_shims};

}

/// Adopting a repository with one more exchange.
broadcast proof fn steady_init(log: Seq<Exchange>, e: Exchange, at: int, windows: bool)
    ensures
        steady(
            log,
            e,
            at,
            play_init(log, at, windows),
            #[trigger] play_init(log.push(e), at, windows),
        ),
{
    broadcast use {
        steady_asked, steady_copy_shims, steady_need_root, steady_home, steady_say,
        fresh_copy_shims,
    };

}

/// Removing the global setup with one more exchange.
broadcast proof fn steady_uninstall(windows: bool, log: Seq<Exchange>, e: Exchange, at: int)
    ensures
        steady(
            log,
            e,
            at,
            play_uninstall(windows, log, at),
            #[trigger] play_uninstall(windows, log.push(e), at),
        ),
{
    broadcast use {steady_asked, steady_git, steady_home, steady_say};

}

/// Adding a command with one more exchange.
broadcast proof fn steady_add(
    windows: bool,
    log: Seq<Exchange>,
    e: Exchange,
    at: int,
    hook: Seq<char>,
    cmd: Seq<char>,
)
    ensures
        steady(
            log,
            e,
            at,
            play_add(windows, log, at, hook, cmd),
            #[trigger] play_add(windows, log.push(e), at, hook, cmd),
        ),
{
    broadcast use {steady_asked, steady_record_consent, steady_need_root, steady_say};

}

/// Deciding with one more exchange.
broadcast proof fn steady_consent(
    windows: bool,
    log: Seq<Exchange>,
    e: Exchange,
    at: int,
    accept: bool,
)
    ensures
        steady(
            log,
            e,
            at,
            play_consent(windows, log, at, accept),
            #[trigger] play_consent(windows, log.push(e), at, accept),
        ),
{
    broadcast use {
        steady_asked, steady_consent_hash, steady_record_consent, steady_say, steady_repo_root,
    };

}

/// Showing the signature with one more exchange.
broadcast proof fn steady_show_signature(
    windows: bool,
    log: Seq<Exchange>,
    e: Exchange,
    at: int,
    root: Seq<char>,
)
    ensures
        steady(
            log,
            e,
            at,
            play_show_signature(windows, log, at, root),
            #[trigger] play_show_signature(windows, log.push(e), at, root),
        ),
{
    broadcast use {steady_asked, steady_signature_line, steady_say};

}

/// Showing the decision and the signature with one more exchange.
broadcast proof fn steady_status_end(
    windows: bool,
    log: Seq<Exchange>,
    e: Exchange,
    at: int,
    root: Seq<char>,
)
    ensures
        steady(
            log,
            e,
            at,
            play_status_end(windows, log, at, root),
            #[trigger] play_status_end(windows, log.push(e), at, root),
        ),
{
    broadcast use {steady_asked, steady_consent_hash, steady_show_signature, steady_say};

}

/// Showing the status with one more exchange.
broadcast proof fn steady_status(windows: bool, log: Seq<Exchange>, e: Exchange, at: int)
    ensures
        steady(
            log,
            e,
            at,
            play_status(windows, log, at),
            #[trigger] play_status(windows, log.push(e), at),
        ),
{
    broadcast use {
        steady_asked, steady_need_root, steady_walk, steady_status_end, steady_say, fresh_walk,
    };

}

/// Reading the manifest with one more exchange.
broadcast proof fn steady_read_manifest(log: Seq<Exchange>, e: Exchange, at: int)
    ensures
        steady(
            log,
            e,
            at,
            play_read_manifest(log, at),
            #[trigger] play_read_manifest(log.push(e), at),
        ),
{
    broadcast use steady_asked;

}

/// Showing the changes with one more exchange.
broadcast proof fn steady_show_changes(
    windows: bool,
    log: Seq<Exchange>,
    e: Exchange,
    at: int,
    root: Seq<char>,
    manifest: Seq<(Seq<char>, Seq<char>)>,
)
    ensures
        steady(
            log,
            e,
            at,
            play_show_changes(windows, log, at, root, manifest),
            #[trigger] play_show_changes(windows, log.push(e), at, root, manifest),
        ),
{
    broadcast use {steady_asked, steady_consent_hash, steady_change_prompt_body, steady_say};

}

/// Showing the changes and the signature with one more exchange.
broadcast proof fn steady_diff(windows: bool, log: Seq<Exchange>, e: Exchange, at: int)
    ensures
        steady(
            log,
            e,
            at,
            play_diff(windows, log, at),
            #[trigger] play_diff(windows, log.push(e), at),
        ),
{
    broadcast use {
        steady_asked, steady_need_root, steady_consent_hash, steady_read_manifest,
        steady_show_changes, steady_show_signature, steady_say,
    };

}

/// Making the signature with one more exchange.
broadcast proof fn steady_make_signature(
    windows: bool,
    log: Seq<Exchange>,
    e: Exchange,
    at: int,
    root: Seq<char>,
    key: Seq<char>,
)
    ensures
        steady(
            log,
            e,
            at,
            play_make_signature(windows, log, at, root, key),
            #[trigger] play_make_signature(windows, log.push(e), at, root, key),
        ),
{
    broadcast use {steady_asked, steady_walk, steady_blobs, fresh_walk, fresh_blobs};

}

/// Finding out who signs with one more exchange.
broadcast proof fn steady_principal(
    log: Seq<Exchange>,
    e: Exchange,
    at: int,
    signer: Option<Seq<char>>,
)
    ensures
        steady(
            log,
            e,
            at,
            play_principal(log, at, signer),
            #[trigger] play_principal(log.push(e), at, signer),
        ),
{
    broadcast use steady_asked;

}

/// Running `ssh-keygen` with one more exchange.
broadcast proof fn steady_ssh_capture(
    log: Seq<Exchange>,
    e: Exchange,
    at: int,
    args: Seq<Seq<char>>,
)
    ensures
        steady(
            log,
            e,
            at,
            play_ssh_capture(log, at, args),
            #[trigger] play_ssh_capture(log.push(e), at, args),
        ),
{
    broadcast use steady_asked;

}

/// Adding a signer with one more exchange.
broadcast proof fn steady_list_signer(
    log: Seq<Exchange>,
    e: Exchange,
    at: int,
    path: Seq<char>,
    line: Seq<char>,
)
    ensures
        steady(
            log,
            e,
            at,
            play_list_signer(log, at, path, line),
            #[trigger] play_list_signer(log.push(e), at, path, line),
        ),
{
    broadcast use steady_asked;

}

/// Listing the signer with one more exchange.
broadcast proof fn steady_announce_signer(
    windows: bool,
    log: Seq<Exchange>,
    e: Exchange,
    at: int,
    root: Seq<char>,
    key: Seq<char>,
    signer: Option<Seq<char>>,
)
    ensures
        steady(
            log,
            e,
            at,
            play_announce_signer(windows, log, at, root, key, signer),
            #[trigger] play_announce_signer(windows, log.push(e), at, root, key, signer),
        ),
{
    broadcast use {
        steady_asked, steady_principal, steady_ssh_capture, steady_list_signer, steady_say,
    };

}

/// Signing with one more exchange.
broadcast proof fn steady_sign(
    windows: bool,
    log: Seq<Exchange>,
    e: Exchange,
    at: int,
    args: Seq<Seq<char>>,
)
    ensures
        steady(
            log,
            e,
            at,
            play_sign(windows, log, at, args),
            #[trigger] play_sign(windows, log.push(e), at, args),
        ),
{
    broadcast use {steady_asked, steady_need_root, steady_make_signature, steady_announce_signer};

}

/// Reading the policy with one more exchange.
broadcast proof fn steady_policy(windows: bool, log: Seq<Exchange>, e: Exchange, at: int)
    ensures
        steady(
            log,
            e,
            at,
            play_policy(windows, log, at),
            #[trigger] play_policy(windows, log.push(e), at),
        ),
{
    broadcast use {steady_asked, steady_home};

}

/// Writing the policy with one more exchange.
broadcast proof fn steady_write_policy(
    windows: bool,
    log: Seq<Exchange>,
    e: Exchange,
    at: int,
    doc: Entries,
)
    ensures
        steady(
            log,
            e,
            at,
            play_write_policy(windows, log, at, doc),
            #[trigger] play_write_policy(windows, log.push(e), at, doc),
        ),
{
    broadcast use {steady_asked, steady_home};

}

/// Asking for the keys that are trusted in the repository with one more exchange.
broadcast proof fn steady_local_trusted_keys(log: Seq<Exchange>, e: Exchange, at: int)
    ensures
        steady(
            log,
            e,
            at,
            play_local_trusted_keys(log, at),
            #[trigger] play_local_trusted_keys(log.push(e), at),
        ),
{
    broadcast use steady_asked;

}

/// Trusting a key by the policy with one more exchange.
broadcast proof fn steady_trust_globally(
    windows: bool,
    log: Seq<Exchange>,
    e: Exchange,
    at: int,
    key: Seq<char>,
)
    ensures
        steady(
            log,
            e,
            at,
            play_trust_globally(windows, log, at, key),
            #[trigger] play_trust_globally(windows, log.push(e), at, key),
        ),
{
    broadcast use {steady_asked, steady_policy, steady_write_policy, steady_home, steady_say};

}

/// Trusting a key in the repository with one more exchange.
broadcast proof fn steady_trust_locally(log: Seq<Exchange>, e: Exchange, at: int, key: Seq<char>)
    ensures
        steady(
            log,
            e,
            at,
            play_trust_locally(log, at, key),
            #[trigger] play_trust_locally(log.push(e), at, key),
        ),
{
    broadcast use {
        steady_asked, steady_repo_root, steady_local_trusted_keys, steady_git, steady_say,
    };

}

/// No longer trusting a key by the policy with one more exchange.
broadcast proof fn steady_untrust_globally(
    windows: bool,
    log: Seq<Exchange>,
    e: Exchange,
    at: int,
    key: Seq<char>,
)
    ensures
        steady(
            log,
            e,
            at,
            play_untrust_globally(windows, log, at, key),
            #[trigger] play_untrust_globally(windows, log.push(e), at, key),
        ),
{
    broadcast use {steady_asked, steady_policy, steady_write_policy, steady_say};

}

/// No longer trusting a key in the repository with one more exchange.
broadcast proof fn steady_untrust_locally(log: Seq<Exchange>, e: Exchange, at: int, key: Seq<char>)
    ensures
        steady(
            log,
            e,
            at,
            play_untrust_locally(log, at, key),
            #[trigger] play_untrust_locally(log.push(e), at, key),
        ),
{
    broadcast use {
        steady_asked, steady_repo_root, steady_local_trusted_keys, steady_add_keys, steady_say,
        fresh_add_keys,
    };

}

/// Trusting a key with one more exchange.
broadcast proof fn steady_trust_cmd(
    windows: bool,
    log: Seq<Exchange>,
    e: Exchange,
    at: int,
    args: Seq<Seq<char>>,
)
    ensures
        steady(
            log,
            e,
            at,
            play_trust_cmd(windows, log, at, args),
            #[trigger] play_trust_cmd(windows, log.push(e), at, args),
        ),
{
    broadcast use {steady_asked, steady_trust_globally, steady_trust_locally};

}

/// No longer trusting a key with one more exchange.
broadcast proof fn steady_untrust_cmd(
    windows: bool,
    log: Seq<Exchange>,
    e: Exchange,
    at: int,
    args: Seq<Seq<char>>,
)
    ensures
        steady(
            log,
            e,
            at,
            play_untrust_cmd(windows, log, at, args),
            #[trigger] play_untrust_cmd(windows, log.push(e), at, args),
        ),
{
    broadcast use {steady_asked, steady_untrust_globally, steady_untrust_locally};

}

// ---------------------------------------------------------------------------
// Laws.
// ---------------------------------------------------------------------------

/// Whether a program that stopped for the reason `before` stops for the fitting
/// reason `after` with one more exchange.
pub open spec fn follows(e: Exchange, before: Stop, after: Stop) -> bool {
    match before {
        Stop::Ask(op, words) => fits(e, op, words) ==> after != Stop::Astray,
        _ => after == before,
    }
}

/// A command that ends the program.
proof fn lemma_ending(log: Seq<Exchange>, e: Exchange, before: Outcome<()>, after: Outcome<()>)
    requires
        steady(log, e, 0, before, after),
    ensures
        follows(e, ending(before), ending(after)),
{
}

/// A hook that ends the program.
proof fn lemma_hook_ending(
    log: Seq<Exchange>,
    e: Exchange,
    before: Outcome<i32>,
    after: Outcome<i32>,
)
    requires
        steady(log, e, 0, before, after),
    ensures
        follows(e, hook_ending(before), hook_ending(after)),
{
}

/// The program with one more exchange.
#[verifier::spinoff_prover]
#[verifier::rlimit(60)]
proof fn lemma_program(args: Seq<Seq<char>>, log: Seq<Exchange>, e: Exchange, windows: bool)
    ensures
        follows(e, play_program(args, log, windows), play_program(args, log.push(e), windows)),
{
    let more = log.push(e);
    steady_say_how(log, e, 0);
    if args.len() == 0 {
        reveal(play_program);
    } else if args[0] == "install"@ {
        steady_install(windows, log, e, 0);
        lemma_ending(log, e, play_install(windows, log, 0), play_install(windows, more, 0));
        reveal(play_program);
    } else if args[0] == "init"@ {
        steady_init(log, e, 0, windows);
        lemma_ending(log, e, play_init(log, 0, windows), play_init(more, 0, windows));
        reveal(play_program);
    } else if args[0] == "uninstall"@ {
        steady_uninstall(windows, log, e, 0);
        lemma_ending(log, e, play_uninstall(windows, log, 0), play_uninstall(windows, more, 0));
        reveal(play_program);
    } else if args[0] == "add"@ {
        if args.len() >= 3 {
            steady_add(windows, log, e, 0, args[1], args[2]);
            lemma_ending(
                log,
                e,
                play_add(windows, log, 0, args[1], args[2]),
                play_add(windows, more, 0, args[1], args[2]),
            );
        }
        reveal(play_program);
    } else if args[0] == "accept"@ {
        steady_consent(windows, log, e, 0, true);
        lemma_ending(
            log,
            e,
            play_consent(windows, log, 0, true),
            play_consent(windows, more, 0, true),
        );
        reveal(play_program);
    } else if args[0] == "decline"@ {
        steady_consent(windows, log, e, 0, false);
        lemma_ending(
            log,
            e,
            play_consent(windows, log, 0, false),
            play_consent(windows, more, 0, false),
        );
        reveal(play_program);
    } else if args[0] == "status"@ {
        steady_status(windows, log, e, 0);
        lemma_ending(log, e, play_status(windows, log, 0), play_status(windows, more, 0));
        reveal(play_program);
    } else if args[0] == "diff"@ {
        steady_diff(windows, log, e, 0);
        lemma_ending(log, e, play_diff(windows, log, 0), play_diff(windows, more, 0));
        reveal(play_program);
    } else if args[0] == "sign"@ {
        let rest = args.skip(1);
        steady_sign(windows, log, e, 0, rest);
        lemma_ending(log, e, play_sign(windows, log, 0, rest), play_sign(windows, more, 0, rest));
        reveal(play_program);
    } else if args[0] == "trust"@ {
        let rest = args.skip(1);
        steady_trust_cmd(windows, log, e, 0, rest);
        lemma_ending(
            log,
            e,
            play_trust_cmd(windows, log, 0, rest),
            play_trust_cmd(windows, more, 0, rest),
        );
        reveal(play_program);
    } else if args[0] == "untrust"@ {
        let rest = args.skip(1);
        steady_untrust_cmd(windows, log, e, 0, rest);
        lemma_ending(
            log,
            e,
            play_untrust_cmd(windows, log, 0, rest),
            play_untrust_cmd(windows, more, 0, rest),
        );
        reveal(play_program);
    } else {
        if args.len() >= 2 {
            let rest = args.skip(2);
            steady_run_hook(log, e, 0, windows, args[1], rest);
            lemma_hook_ending(
                log,
                e,
                play_run_hook(log, 0, windows, args[1], rest),
                play_run_hook(more, 0, windows, args[1], rest),
            );
        }
        reveal(play_program);
    }
}

/// Saying how the program is used, with one more exchange.
proof fn steady_say_how(log: Seq<Exchange>, e: Exchange, at: int)
    ensures
        steady(
            log,
            e,
            at,
            Outcome::<()>::Stop(usage_stop(log, at)),
            Outcome::<()>::Stop(usage_stop(log.push(e), at)),
        ),
{
    broadcast use steady_asked;

}

/// A program that is given the reply to just what it asked for goes on: it does
/// not take the exchanges for those of another command.
pub proof fn law_goes_on_after_the_reply(
    args: Seq<Seq<char>>,
    log: Seq<Exchange>,
    windows: bool,
    e: Exchange,
)
    requires
        play_program(args, log, windows) == Stop::Ask(e.request.op, texts(e.request.words@)),
    ensures
        play_program(args, log.push(e), windows) != Stop::Astray,
{
    lemma_program(args, log, e, windows);
}

/// A program that has ended stays as it ended, whatever exchanges follow.
pub proof fn law_end_is_final(
    args: Seq<Seq<char>>,
    log: Seq<Exchange>,
    windows: bool,
    e: Exchange,
)
    requires
        !(play_program(args, log, windows) is Ask),
    ensures
        play_program(args, log.push(e), windows) == play_program(args, log, windows),
{
    lemma_program(args, log, e, windows);
}

/// Whether each exchange is about what the program asked for after those before
/// it.
pub open spec fn faithful(args: Seq<Seq<char>>, log: Seq<Exchange>, windows: bool) -> bool {
    forall|i: int|
        0 <= i < log.len() ==> play_program(args, #[trigger] log.take(i), windows) == Stop::Ask(
            log[i].request.op,
            texts(log[i].request.words@),
        )
}

/// A program whose requests are performed in turn never goes astray.
pub proof fn law_never_astray(args: Seq<Seq<char>>, log: Seq<Exchange>, windows: bool)
    requires
        faithful(args, log, windows),
    ensures
        play_program(args, log, windows) != Stop::Astray,
{
    if log.len() == 0 {
        lemma_start(args, log, windows);
    } else {
        let fewer = log.drop_last();
        assert(log.take(log.len() - 1) =~= fewer);
        assert(fewer.push(log.last()) =~= log);
        lemma_program(args, fewer, log.last(), windows);
    }
}

/// A program without exchanges is not astray.
proof fn lemma_start(args: Seq<Seq<char>>, log: Seq<Exchange>, windows: bool)
    requires
        log.len() == 0,
    ensures
        play_program(args, log, windows) != Stop::Astray,
{
    reveal(play_program);
    broadcast use fresh_walk;

}

} // verus!
