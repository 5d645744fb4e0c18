//! What the program asks for, and what it never asks for without consent.
use crate::commands::{
    play_add, play_consent, play_copy_shim, play_copy_shims, play_diff, play_init, play_install,
    play_shim, play_shims, play_status, play_uninstall,
};
use crate::config::{command_for, entries_for, hook_cmd, known_hooks, CONFIG_FILE};
use crate::consent::{
    decision, env_decision, law_decision_holds, law_other_content_is_undecided, manifest_addition,
    manifest_line, manifest_removal, play_consent_state, play_manifest_from, play_record_consent,
    play_store_object, state_query, state_update, verdict, Decision,
};
use crate::content::{
    or_empty, paths_in, play_blobs, play_canonical_content, play_consent_hash, play_hash_object,
    play_walk,
};
use crate::document::{entries_of, toml_parsed, Entries, Node};
use crate::git::{play_git, play_home, play_repo_root, play_staged_files, play_tell};
use crate::hook::{
    auto_notice, hook_notice, play_accepted_before, play_command, play_commands, play_configured,
    play_may_run, play_policy_or_prompt, play_resolve_new_consent, play_run_hook,
    play_trusted_signature, policy_notice,
};
use crate::paths::{path_joined, path_rel};
use crate::policy::{declines, keys_trusted};
use crate::program::{hook_ending, lemma_program_runs, play_program};
use crate::prompt::{
    accepted_blob, added_shown, answer_means, changed_shown, devices, no_terminal_notice,
    offers_trust, play_change_prompt_body, play_changes, play_git_diff_blob_file, play_prompt_body,
    play_prompt_consent, play_refs, play_runtime_ref_warning, prompt_shown,
};
use crate::signers::good_key;
use crate::signing::{play_add_keys, play_sign, play_trust_cmd, play_untrust_cmd};
use crate::text::{lines_of, maybe, texts};
use crate::trust::{
    key_addition, play_allowed_principals, play_key_trusted, play_policy_default_decline,
    play_signature_line, play_signature_status, play_ssh_verify, play_try_principals, sig_path,
    signers_path, verify_request, Signed, SIG_NAMESPACE,
};
use crate::world::{
    asked_done, asked_flag, asked_listing, asked_text, captured, said, succeeded, Exchange, Op,
    Outcome, Reply, Stop,
};
use vstd::prelude::*;

verus! {

// ---------------------------------------------------------------------------
// Kinds of requests.
// ---------------------------------------------------------------------------

/// Whether `ssh-keygen` is told to keep to the namespace of this program, when it
/// is asked to sign or to verify.
pub open spec fn pinned(op: Op, words: Seq<Seq<char>>) -> bool {
    op == Op::SshFeed && words.len() > 1 && words[1] == "-Y"@ ==> exists|i: int|
        0 <= i < words.len() - 1 && #[trigger] words[i] == "-n"@ && words[i + 1] == SIG_NAMESPACE@
}

/// Whether a request is about the terminal.
pub open spec fn on_terminal(op: Op) -> bool {
    op == Op::OpenTerminal || op == Op::TellTerminal || op == Op::HearTerminal
}

/// Whether a part of a command never asks to run a command of a hook, never uses
/// the terminal, and pins the namespace.
pub open spec fn is_tacit<T>(o: Outcome<T>) -> bool {
    o matches Outcome::Stop(Stop::Ask(op, words)) ==> op != Op::Shell && !on_terminal(op) && pinned(
        op,
        words,
    )
}

/// Whether a part of a command never asks to run a command of a hook, and pins the
/// namespace.
pub open spec fn is_mild<T>(o: Outcome<T>) -> bool {
    o matches Outcome::Stop(Stop::Ask(op, words)) ==> op != Op::Shell && pinned(op, words)
}

/// Whether a request only looks, and leaves everything as it is: files, the
/// configuration and the object database of `git`.
pub open spec fn looks(op: Op, words: Seq<Seq<char>>) -> bool {
    match op {
        Op::ReadText => true,
        Op::IsFile => true,
        Op::IsDir => true,
        Op::Exists => true,
        Op::ListDir => true,
        Op::EnvVar => true,
        Op::CurrentDir => true,
        Op::GitCaptureIn => true,
        Op::GitFeed => words.len() == 3 && words[1] == "hash-object"@ && words[2] == "--stdin"@,
        Op::SshFeed => words.len() > 1 && words[1] != "-Y"@ || words.len() > 2 && words[2]
            == "verify"@,
        Op::GitCapture => words.len() == 2 && (words[0] == "rev-parse"@ || words[0]
            == "hash-object"@) || words == state_query() || words.len() == 4 && words[2]
            == "--get-all"@,
        _ => false,
    }
}

/// Whether a part of a command only looks.
pub open spec fn only_looks<T>(o: Outcome<T>) -> bool {
    o matches Outcome::Stop(Stop::Ask(op, words)) ==> looks(op, words)
}

// ---------------------------------------------------------------------------
// The parts of commands that loop.
// ---------------------------------------------------------------------------

/// Walking directories is tacit and only looks.
pub broadcast proof fn lemma_walk(
    windows: bool,
    log: Seq<Exchange>,
    at: int,
    pending: Seq<Seq<char>>,
    files: Seq<Seq<char>>,
)
    ensures
        is_tacit(#[trigger] play_walk(windows, log, at, pending, files)),
        only_looks(play_walk(windows, log, at, pending, files)),
        play_walk(windows, log, at, pending, files) matches Outcome::Done(_, k) ==> at <= k,
    decreases log.len() - at, pending.len(),
{
    if pending.len() > 0 {
        match asked_listing(log, at, pending.last()) {
            Outcome::Done((dirs, found), next) => {
                lemma_walk(
                    windows,
                    log,
                    next,
                    pending.drop_last() + paths_in(windows, pending.last(), dirs),
                    files + paths_in(windows, pending.last(), found),
                );
            },
            _ => {},
        }
    }
}

/// Asking for blobs is tacit and only looks.
pub broadcast proof fn lemma_blobs(
    windows: bool,
    log: Seq<Exchange>,
    at: int,
    root: Seq<char>,
    files: Seq<Seq<char>>,
    exclude_trust: bool,
    i: int,
    out: Seq<(Seq<char>, Seq<char>)>,
)
    ensures
        is_tacit(#[trigger] play_blobs(windows, log, at, root, files, exclude_trust, i, out)),
        only_looks(play_blobs(windows, log, at, root, files, exclude_trust, i, out)),
        play_blobs(
            windows,
            log,
            at,
            root,
            files,
            exclude_trust,
            i,
            out,
        ) matches Outcome::Done(_, k) ==> at
            <= k,
    decreases files.len() - i,
{
    if i < files.len() {
        lemma_blobs(windows, log, at, root, files, exclude_trust, i + 1, out);
        match play_hash_object(log, at, files[i]) {
            Outcome::Done(blob, k) => {
                lemma_blobs(
                    windows,
                    log,
                    k,
                    root,
                    files,
                    exclude_trust,
                    i + 1,
                    out.push((path_rel(windows, root, files[i]), or_empty(blob))),
                );
            },
            _ => {},
        }
    }
}

/// Writing the manifest is tacit.
broadcast proof fn lemma_manifest_from(
    windows: bool,
    log: Seq<Exchange>,
    at: int,
    root: Seq<char>,
    files: Seq<Seq<char>>,
    i: int,
)
    ensures
        is_tacit(#[trigger] play_manifest_from(windows, log, at, root, files, i)),
        play_manifest_from(
            windows,
            log,
            at,
            root,
            files,
            i,
        ) matches Outcome::Done(_, k) ==> at <= k,
    decreases files.len() - i,
{
    if i < files.len() {
        match play_store_object(log, at, files[i]) {
            Outcome::Done(None, k) => {
                lemma_manifest_from(windows, log, k, root, files, i + 1);
            },
            Outcome::Done(Some(blob), k) => {
                match play_git(
                    log,
                    k,
                    manifest_addition(manifest_line(path_rel(windows, root, files[i]), blob)),
                ) {
                    Outcome::Done(_, k) => {
                        lemma_manifest_from(windows, log, k, root, files, i + 1);
                    },
                    _ => {},
                }
            },
            _ => {},
        }
    }
}

/// Trying principals is tacit and only looks.
pub broadcast proof fn lemma_try_principals(
    log: Seq<Exchange>,
    at: int,
    signers: Seq<char>,
    sig: Seq<char>,
    content: Seq<char>,
    list: Seq<Seq<char>>,
    i: int,
)
    ensures
        is_tacit(#[trigger] play_try_principals(log, at, signers, sig, content, list, i)),
        only_looks(play_try_principals(log, at, signers, sig, content, list, i)),
        play_try_principals(log, at, signers, sig, content, list, i) matches Outcome::Done(_, k)
            ==> at <= k,
    decreases list.len() - i,
{
    if i < list.len() {
        lemma_verify_pinned(signers, list[i], sig, content);
        match play_ssh_verify(log, at, signers, list[i], sig, content) {
            Outcome::Done(None, k) => {
                lemma_try_principals(log, k, signers, sig, content, list, i + 1);
            },
            _ => {},
        }
    }
}

/// The namespace is pinned where a signature is verified.
proof fn lemma_verify_pinned(
    signers: Seq<char>,
    principal: Seq<char>,
    sig: Seq<char>,
    content: Seq<char>,
)
    ensures
        pinned(Op::SshFeed, verify_request(signers, principal, sig, content)),
{
    let w = verify_request(signers, principal, sig, content);
    assert(w[7] == "-n"@ && w[8] == SIG_NAMESPACE@);
}

/// The namespace is pinned where a signature is made.
proof fn lemma_sign_pinned(key: Seq<char>, content: Seq<char>)
    ensures
        pinned(Op::SshFeed, crate::signing::sign_request(key, content)),
{
    let w = crate::signing::sign_request(key, content);
    assert(w[5] == "-n"@ && w[6] == SIG_NAMESPACE@);
}

/// Comparing files with the manifest is tacit.
broadcast proof fn lemma_changes(
    windows: bool,
    log: Seq<Exchange>,
    at: int,
    root: Seq<char>,
    manifest: Seq<(Seq<char>, Seq<char>)>,
    current: Seq<Seq<char>>,
    i: int,
    out: Seq<char>,
)
    ensures
        is_tacit(#[trigger] play_changes(windows, log, at, root, manifest, current, i, out)),
        play_changes(
            windows,
            log,
            at,
            root,
            manifest,
            current,
            i,
            out,
        ) matches Outcome::Done(_, k) ==> at
            <= k,
    decreases current.len() - i,
{
    if i < current.len() {
        let path = path_joined(windows, root, current[i]);
        match play_hash_object(log, at, path) {
            Outcome::Done(cur, k) => {
                match accepted_blob(manifest, current[i]) {
                    Some(old) => {
                        lemma_changes(windows, log, k, root, manifest, current, i + 1, out);
                        match play_git_diff_blob_file(log, k, old, path) {
                            Outcome::Done(diff, k) => {
                                lemma_changes(
                                    windows,
                                    log,
                                    k,
                                    root,
                                    manifest,
                                    current,
                                    i + 1,
                                    out + changed_shown(current[i], diff),
                                );
                            },
                            _ => {},
                        }
                    },
                    None => {
                        match asked_text(log, k, Op::ReadText, seq![path]) {
                            Outcome::Done(text, k) => {
                                lemma_changes(
                                    windows,
                                    log,
                                    k,
                                    root,
                                    manifest,
                                    current,
                                    i + 1,
                                    out + added_shown(current[i], text),
                                );
                            },
                            _ => {},
                        }
                    },
                }
            },
            _ => {},
        }
    }
}

/// Looking for referenced files is tacit and only looks.
pub broadcast proof fn lemma_refs(
    windows: bool,
    log: Seq<Exchange>,
    at: int,
    root: Seq<char>,
    list: Seq<Seq<char>>,
    i: int,
    out: Seq<Seq<char>>,
)
    ensures
        is_tacit(#[trigger] play_refs(windows, log, at, root, list, i, out)),
        only_looks(play_refs(windows, log, at, root, list, i, out)),
        play_refs(windows, log, at, root, list, i, out) matches Outcome::Done(_, k) ==> at <= k,
    decreases list.len() - i,
{
    if i < list.len() {
        lemma_refs(windows, log, at, root, list, i + 1, out);
        match asked_flag(log, at, Op::IsFile, seq![path_joined(windows, root, list[i])]) {
            Outcome::Done(there, k) => {
                lemma_refs(
                    windows,
                    log,
                    k,
                    root,
                    list,
                    i + 1,
                    if there {
                        out.push(list[i])
                    } else {
                        out
                    },
                );
            },
            _ => {},
        }
    }
}

/// Writing shims is tacit.
broadcast proof fn lemma_shims(windows: bool, log: Seq<Exchange>, at: int, dir: Seq<char>, i: int)
    ensures
        is_tacit(#[trigger] play_shims(windows, log, at, dir, i)),
    decreases known_hooks().len() - i,
{
    if i < known_hooks().len() {
        match play_shim(windows, log, at, dir, known_hooks()[i]) {
            Outcome::Done(_, k) => {
                lemma_shims(windows, log, k, dir, i + 1);
            },
            _ => {},
        }
    }
}

/// Copying shims is tacit.
broadcast proof fn lemma_copy_shims(
    windows: bool,
    log: Seq<Exchange>,
    at: int,
    from: Seq<char>,
    to: Seq<char>,
    i: int,
    installed: Seq<Seq<char>>,
    skipped: Seq<Seq<char>>,
)
    ensures
        is_tacit(#[trigger] play_copy_shims(windows, log, at, from, to, i, installed, skipped)),
    decreases known_hooks().len() - i,
{
    if i < known_hooks().len() {
        let hook = known_hooks()[i];
        match play_copy_shim(
            log,
            at,
            path_joined(windows, from, hook),
            path_joined(windows, to, hook),
        ) {
            Outcome::Stop(_) => {},
            Outcome::Done(None, k) => {
                lemma_copy_shims(windows, log, k, from, to, i + 1, installed, skipped);
            },
            Outcome::Done(Some(true), k) => {
                lemma_copy_shims(windows, log, k, from, to, i + 1, installed.push(hook), skipped);
            },
            Outcome::Done(Some(false), k) => {
                lemma_copy_shims(windows, log, k, from, to, i + 1, installed, skipped.push(hook));
            },
        }
    }
}

/// Trusting keys one after another is tacit.
broadcast proof fn lemma_add_keys(log: Seq<Exchange>, at: int, keys: Seq<Seq<char>>, i: int)
    ensures
        is_tacit(#[trigger] play_add_keys(log, at, keys, i)),
    decreases keys.len() - i,
{
    if i < keys.len() {
        match play_git(log, at, key_addition(keys[i])) {
            Outcome::Done(_, k) => {
                lemma_add_keys(log, k, keys, i + 1);
            },
            _ => {},
        }
    }
}

// ---------------------------------------------------------------------------
// Commands other than `run`.
// ---------------------------------------------------------------------------

/// Setting up is tacit.
proof fn lemma_setup(log: Seq<Exchange>, at: int, windows: bool)
    ensures
        is_tacit(play_install(windows, log, at)),
        is_tacit(play_init(log, at, windows)),
        is_tacit(play_uninstall(windows, log, at)),
{
    broadcast use {lemma_shims, lemma_copy_shims};

}

/// Recording a decision is tacit.
pub broadcast proof fn lemma_record_consent(windows: bool, log: Seq<Exchange>, at: int, accept: bool)
    ensures
        is_tacit(#[trigger] play_record_consent(windows, log, at, accept)),
        play_record_consent(windows, log, at, accept) matches Outcome::Done(_, k) ==> at <= k,
{
    broadcast use {lemma_walk, lemma_blobs, lemma_manifest_from};

}

/// Adding a command and deciding are tacit.
proof fn lemma_deciding(
    windows: bool,
    log: Seq<Exchange>,
    at: int,
    hook: Seq<char>,
    cmd: Seq<char>,
    accept: bool,
)
    ensures
        is_tacit(play_add(windows, log, at, hook, cmd)),
        is_tacit(play_consent(windows, log, at, accept)),
{
    broadcast use {lemma_walk, lemma_blobs, lemma_record_consent};

}

/// Checking the signature is tacit and only looks.
pub broadcast proof fn lemma_signature_status(
    windows: bool,
    log: Seq<Exchange>,
    at: int,
    root: Seq<char>,
)
    ensures
        is_tacit(#[trigger] play_signature_status(windows, log, at, root)),
        only_looks(play_signature_status(windows, log, at, root)),
        play_signature_status(windows, log, at, root) matches Outcome::Done(_, k) ==> at <= k,
{
    broadcast use {lemma_walk, lemma_blobs, lemma_try_principals};

}

/// Forming the consent hash is tacit and only looks.
pub broadcast proof fn lemma_consent_hash(windows: bool, log: Seq<Exchange>, at: int)
    ensures
        is_tacit(#[trigger] play_consent_hash(windows, log, at)),
        only_looks(play_consent_hash(windows, log, at)),
        play_consent_hash(windows, log, at) matches Outcome::Done(_, k) ==> at <= k,
{
    broadcast use {lemma_walk, lemma_blobs};

}

/// Saying what the signature is is tacit and only looks.
pub broadcast proof fn lemma_signature_line(windows: bool, log: Seq<Exchange>, at: int, root: Seq<char>)
    ensures
        is_tacit(#[trigger] play_signature_line(windows, log, at, root)),
        only_looks(play_signature_line(windows, log, at, root)),
        play_signature_line(windows, log, at, root) matches Outcome::Done(_, k) ==> at <= k,
{
    broadcast use lemma_signature_status;

}

/// Forming the body of a prompt about changed content is tacit.
broadcast proof fn lemma_change_prompt_body(
    windows: bool,
    log: Seq<Exchange>,
    at: int,
    root: Seq<char>,
    manifest: Seq<(Seq<char>, Seq<char>)>,
)
    ensures
        is_tacit(#[trigger] play_change_prompt_body(windows, log, at, root, manifest)),
        play_change_prompt_body(
            windows,
            log,
            at,
            root,
            manifest,
        ) matches Outcome::Done(_, k) ==> at <= k,
{
    broadcast use {lemma_walk, lemma_changes};

}

/// Showing the status is tacit.
proof fn lemma_status(windows: bool, log: Seq<Exchange>, at: int)
    ensures
        is_tacit(play_status(windows, log, at)),
{
    broadcast use {lemma_walk, lemma_consent_hash, lemma_signature_line};

}

/// Showing the changes is tacit.
proof fn lemma_diff(windows: bool, log: Seq<Exchange>, at: int)
    ensures
        is_tacit(play_diff(windows, log, at)),
{
    broadcast use {lemma_consent_hash, lemma_signature_line, lemma_change_prompt_body};

}

/// Signing and trusting are tacit.
proof fn lemma_signing(windows: bool, log: Seq<Exchange>, at: int, args: Seq<Seq<char>>)
    ensures
        is_tacit(play_sign(windows, log, at, args)),
        is_tacit(play_trust_cmd(windows, log, at, args)),
        is_tacit(play_untrust_cmd(windows, log, at, args)),
{
    broadcast use {lemma_walk, lemma_blobs, lemma_add_keys};

    assert forall|key: Seq<char>, content: Seq<char>| pinned(
        Op::SshFeed,
        #[trigger] crate::signing::sign_request(key, content),
    ) by {
        lemma_sign_pinned(key, content);
    }
}

// ---------------------------------------------------------------------------
// Consent, as the exchanges show it.
// ---------------------------------------------------------------------------

/// Whether an outcome is the given value.
pub open spec fn yields<T>(o: Outcome<T>, v: T) -> bool {
    o matches Outcome::Done(w, _) && w == v
}

/// Whether the content that is there had the given hash.
pub open spec fn content_has_hash(windows: bool, log: Seq<Exchange>, hash: Seq<char>) -> bool {
    exists|at: int| yields(#[trigger] play_consent_hash(windows, log, at), Some(hash))
}

/// Whether an exchange shows that the environment variable accepts content with
/// the given hash.
pub open spec fn accepts_by_variable(e: Exchange, hash: Seq<char>) -> bool {
    e.request.op == Op::EnvVar && texts(e.request.words@) == seq!["GIT_HOOKS_CONSENT"@] && (
    e.reply matches Reply::Text(var) && env_decision(maybe(var), hash) == Some(true))
}

/// Whether an exchange shows that the recorded decision accepts content with the
/// given hash.
pub open spec fn accepts_by_record(e: Exchange, hash: Seq<char>) -> bool {
    e.request.op == Op::GitCapture && texts(e.request.words@) == state_query() && (
    e.reply matches Reply::Ran(Ok(f)) && captured(Some(f)) == Some(verdict(true, hash)))
}

/// Whether an exchange shows that the user accepts, having been offered to trust
/// the key or not.
pub open spec fn accepts_by_answer(e: Exchange, offered: bool) -> bool {
    e.request.op == Op::HearTerminal && (e.reply matches Reply::Text(Some(answer))
        && answer_means(answer@, offered).0)
}

/// Whether an exchange shows that a principal signed a content, under the pinned
/// namespace and with the key that has the given fingerprint.
pub open spec fn verifies(
    windows: bool,
    e: Exchange,
    root: Seq<char>,
    principal: Seq<char>,
    fingerprint: Seq<char>,
    content: Seq<char>,
) -> bool {
    e.request.op == Op::SshFeed && texts(e.request.words@) == verify_request(
        signers_path(windows, root),
        principal,
        sig_path(windows, root),
        content,
    ) && (e.reply matches Reply::Ran(Ok(f)) && succeeded(f) && good_key(said(f)) == fingerprint)
}

/// Whether a principal signed the content that is there, with the key that has the
/// given fingerprint.
pub open spec fn signed_by(
    windows: bool,
    log: Seq<Exchange>,
    root: Seq<char>,
    principal: Seq<char>,
    fingerprint: Seq<char>,
) -> bool {
    exists|at: int, i: int, content: Seq<char>|
        0 <= i < log.len() && yields(
            #[trigger] play_canonical_content(windows, log, at, root, true),
            content,
        ) && #[trigger] verifies(windows, log[i], root, principal, fingerprint, content)
}

/// Whether an exchange shows that a key is trusted: by the org-wide policy or in
/// the repository.
pub open spec fn shows_trusted(windows: bool, e: Exchange, fingerprint: Seq<char>) -> bool {
    ||| e.request.op == Op::ReadText && (exists|home: Seq<char>|
        texts(e.request.words@) == seq![
            #[trigger] path_joined(windows, home, ".config/git-hooks/policy.toml"@),
        ]) && (e.reply matches Reply::Text(text) && keys_trusted(entries_of(maybe(text))).contains(
        fingerprint,
    ))
    ||| e.request.op == Op::GitCapture && texts(e.request.words@) == seq![
        "config"@,
        "--local"@,
        "--get-all"@,
        "hooks.trustedKey"@,
    ] && (e.reply matches Reply::Ran(Ok(f)) && (captured(Some(f)) matches Some(text)
        && lines_of(text).contains(fingerprint)))
}

/// Whether the content that is there was signed with a trusted key.
pub open spec fn signed_by_trusted_key(windows: bool, log: Seq<Exchange>, root: Seq<char>) -> bool {
    exists|principal: Seq<char>, fingerprint: Seq<char>, i: int|
        0 <= i < log.len() && #[trigger] signed_by(windows, log, root, principal, fingerprint)
            && #[trigger] shows_trusted(windows, log[i], fingerprint)
}

/// Whether the user accepted on the terminal. The answer to trust the key counts
/// only where the content that is there was signed.
pub open spec fn accepted_on_terminal(windows: bool, log: Seq<Exchange>, root: Seq<char>) -> bool {
    exists|i: int, offered: bool|
        0 <= i < log.len() && #[trigger] accepts_by_answer(log[i], offered) && (offered ==> exists|
            principal: Seq<char>,
            fingerprint: Seq<char>,
        | #[trigger] signed_by(windows, log, root, principal, fingerprint))
}

/// Whether an exchange shows the org-wide policy.
pub open spec fn shows_policy(windows: bool, e: Exchange, doc: Entries) -> bool {
    e.request.op == Op::ReadText && (exists|home: Seq<char>|
        texts(e.request.words@) == seq![
            #[trigger] path_joined(windows, home, ".config/git-hooks/policy.toml"@),
        ]) && (e.reply matches Reply::Text(text) && entries_of(maybe(text)) == doc)
}

/// Whether the exchanges show a policy that does not decline by default.
pub open spec fn policy_allows(windows: bool, log: Seq<Exchange>) -> bool {
    exists|i: int, doc: Entries|
        0 <= i < log.len() && #[trigger] shows_policy(windows, log[i], doc) && !declines(doc)
}

/// Whether the exchanges show consent to content with the given hash in the
/// repository at `root`: by the environment variable, by a trusted signature, or,
/// where the policy does not decline by default, by the recorded decision or the
/// user's answer.
pub open spec fn consented(
    windows: bool,
    log: Seq<Exchange>,
    root: Seq<char>,
    hash: Seq<char>,
) -> bool {
    ||| exists|i: int| 0 <= i < log.len() && #[trigger] accepts_by_variable(log[i], hash)
    ||| signed_by_trusted_key(windows, log, root)
    ||| policy_allows(windows, log) && {
        ||| exists|i: int| 0 <= i < log.len() && #[trigger] accepts_by_record(log[i], hash)
        ||| accepted_on_terminal(windows, log, root)
    }
}

/// Whether a signature that verifies is one that the exchanges show.
spec fn is_shown(
    windows: bool,
    log: Seq<Exchange>,
    root: Seq<char>,
    content: Seq<char>,
    o: Outcome<Signed>,
) -> bool {
    match o {
        Outcome::Done(Signed::Valid(principal, fingerprint), _) => exists|j: int|
            0 <= j < log.len() && #[trigger] verifies(
                windows,
                log[j],
                root,
                principal,
                fingerprint,
                content,
            ),
        _ => true,
    }
}

/// What trying principals shows.
proof fn lemma_tried(
    windows: bool,
    log: Seq<Exchange>,
    at: int,
    root: Seq<char>,
    content: Seq<char>,
    list: Seq<Seq<char>>,
    i: int,
)
    requires
        0 <= at,
    ensures
        is_shown(
            windows,
            log,
            root,
            content,
            play_try_principals(
                log,
                at,
                signers_path(windows, root),
                sig_path(windows, root),
                content,
                list,
                i,
            ),
        ),
    decreases list.len() - i,
{
    if i < list.len() {
        match play_ssh_verify(
            log,
            at,
            signers_path(windows, root),
            list[i],
            sig_path(windows, root),
            content,
        ) {
            Outcome::Done(None, k) => {
                lemma_tried(windows, log, k, root, content, list, i + 1);
            },
            Outcome::Done(Some(fingerprint), k) => {
                let o = play_try_principals(
                    log,
                    at,
                    signers_path(windows, root),
                    sig_path(windows, root),
                    content,
                    list,
                    i,
                );
                assert(verifies(
                    windows,
                    log[at],
                    root,
                    o->Done_0->Valid_0,
                    o->Done_0->Valid_1,
                    content,
                ));
            },
            _ => {},
        }
    }
}

/// What checking the signature shows.
proof fn lemma_checked(windows: bool, log: Seq<Exchange>, at: int, root: Seq<char>)
    requires
        0 <= at,
    ensures
        play_signature_status(windows, log, at, root) matches Outcome::Done(
            Signed::Valid(principal, fingerprint),
            _,
        ) ==> signed_by(windows, log, root, principal, fingerprint),
{
    broadcast use {lemma_walk, lemma_blobs};

    match asked_flag(log, at, Op::IsFile, seq![sig_path(windows, root)]) {
        Outcome::Done(true, a) => {
            match asked_flag(log, a, Op::IsFile, seq![signers_path(windows, root)]) {
                Outcome::Done(true, b) => {
                    match play_canonical_content(windows, log, b, root, true) {
                        Outcome::Done(content, c) => {
                            match play_allowed_principals(log, c, signers_path(windows, root)) {
                                Outcome::Done(list, d) => {
                                    lemma_tried(windows, log, d, root, content, list, 0);
                                },
                                _ => {},
                            }
                        },
                        _ => {},
                    }
                },
                _ => {},
            }
        },
        _ => {},
    }
}

/// What finding a key trusted shows.
proof fn lemma_trusted(windows: bool, log: Seq<Exchange>, at: int, fingerprint: Seq<char>)
    requires
        0 <= at,
    ensures
        play_key_trusted(
            windows,
            log,
            at,
            fingerprint,
        ) matches Outcome::Done(true, _) ==> fingerprint.len()
            > 0 && exists|i: int|
            0 <= i < log.len() && #[trigger] shows_trusted(windows, log[i], fingerprint),
{
    match play_key_trusted(windows, log, at, fingerprint) {
        Outcome::Done(true, _) => {
            match play_home(log, at) {
                Outcome::Done(h, k) => {
                    let path = path_joined(windows, h, ".config/git-hooks/policy.toml"@);
                    assert(texts(log[k].request.words@) == seq![path]);
                    if keys_trusted(
                        entries_of(maybe(log[k].reply->Text_0)),
                    ).contains(fingerprint) {
                        assert(shows_trusted(windows, log[k], fingerprint));
                    } else {
                        assert(shows_trusted(windows, log[k + 1], fingerprint));
                    }
                },
                _ => {},
            }
        },
        _ => {},
    }
}

/// What an acceptance on the terminal shows.
#[verifier::rlimit(60)]
#[verifier::spinoff_prover]
proof fn lemma_answered(
    log: Seq<Exchange>,
    at: int,
    windows: bool,
    root: Seq<char>,
    raw: Seq<char>,
    signed: Signed,
)
    requires
        0 <= at,
    ensures
        is_mild(play_prompt_consent(log, at, windows, root, raw, signed)),
        play_prompt_consent(log, at, windows, root, raw, signed) matches Outcome::Done(true, _)
            ==> exists|i: int|
            0 <= i < log.len() && #[trigger] accepts_by_answer(log[i], offers_trust(signed)),
{
    broadcast use {lemma_prompt_body, lemma_ref_warning, lemma_record_consent};

    match asked_flag(log, at, Op::OpenTerminal, seq![devices(windows).0, devices(windows).1]) {
        Outcome::Done(true, a) => {
            match play_prompt_body(windows, log, a, root, raw) {
                Outcome::Done(body, b) => {
                    match play_runtime_ref_warning(windows, log, b, root) {
                        Outcome::Done(warning, c) => {
                            match asked_done(
                                log,
                                c,
                                Op::TellTerminal,
                                seq![prompt_shown(signed, body, warning)],
                            ) {
                                Outcome::Done(_, d) => {
                                    match asked_text(log, d, Op::HearTerminal, seq![]) {
                                        Outcome::Done(Some(answer), _) => {
                                            if answer_means(answer, offers_trust(signed)).0 {
                                                assert(accepts_by_answer(
                                                    log[d],
                                                    offers_trust(signed),
                                                ));
                                            }
                                        },
                                        _ => {},
                                    }
                                },
                                _ => {},
                            }
                        },
                        _ => {},
                    }
                },
                _ => {},
            }
        },
        _ => {},
    }
}

/// Forming the body of the prompt is tacit.
pub broadcast proof fn lemma_prompt_body(
    windows: bool,
    log: Seq<Exchange>,
    at: int,
    root: Seq<char>,
    raw: Seq<char>,
)
    ensures
        is_tacit(#[trigger] play_prompt_body(windows, log, at, root, raw)),
        play_prompt_body(windows, log, at, root, raw) matches Outcome::Done(_, k) ==> at <= k,
{
    broadcast use {lemma_walk, lemma_change_prompt_body};

}

/// Forming the warning about referenced files is tacit and only looks.
pub broadcast proof fn lemma_ref_warning(windows: bool, log: Seq<Exchange>, at: int, root: Seq<char>)
    ensures
        is_tacit(#[trigger] play_runtime_ref_warning(windows, log, at, root)),
        only_looks(play_runtime_ref_warning(windows, log, at, root)),
        play_runtime_ref_warning(windows, log, at, root) matches Outcome::Done(_, k) ==> at <= k,
{
    broadcast use lemma_refs;

}

/// What finding that the policy does not decline shows.
proof fn lemma_lenient(windows: bool, log: Seq<Exchange>, at: int)
    requires
        0 <= at,
    ensures
        play_policy_default_decline(windows, log, at) matches Outcome::Done(_, k) ==> at <= k,
        play_policy_default_decline(
            windows,
            log,
            at,
        ) matches Outcome::Done(false, _) ==> policy_allows(windows, log),
{
    match play_home(log, at) {
        Outcome::Done(h, k) => {
            if k < log.len() && log[k].reply is Text {
                let path = path_joined(windows, h, ".config/git-hooks/policy.toml"@);
                let doc = entries_of(maybe(log[k].reply->Text_0));
                if texts(log[k].request.words@) == seq![path] && log[k].request.op == Op::ReadText {
                    assert(shows_policy(windows, log[k], doc));
                }
            }
        },
        _ => {},
    }
}

/// What finding a trusted signature shows.
proof fn lemma_trusted_signature(windows: bool, log: Seq<Exchange>, at: int, root: Seq<char>)
    requires
        0 <= at,
    ensures
        is_mild(play_trusted_signature(windows, log, at, root)),
        play_trusted_signature(windows, log, at, root) matches Outcome::Done(true, _)
            ==> signed_by_trusted_key(windows, log, root),
{
    broadcast use lemma_signature_status;

    lemma_checked(windows, log, at, root);
    match play_signature_status(windows, log, at, root) {
        Outcome::Done(Signed::Valid(_, fingerprint), a) => {
            lemma_trusted(windows, log, a, fingerprint);
        },
        _ => {},
    }
}

/// What going by a recorded acceptance shows.
proof fn lemma_accepted_before(windows: bool, log: Seq<Exchange>, at: int, root: Seq<char>)
    requires
        0 <= at,
    ensures
        is_mild(play_accepted_before(windows, log, at, root)),
        play_accepted_before(
            windows,
            log,
            at,
            root,
        ) matches Outcome::Done(true, _) ==> policy_allows(windows, log)
            || signed_by_trusted_key(windows, log, root),
{
    lemma_lenient(windows, log, at);
    match play_policy_default_decline(windows, log, at) {
        Outcome::Done(true, k) => {
            lemma_trusted_signature(windows, log, k, root);
        },
        _ => {},
    }
}

/// What resolving without a trusted signature shows.
proof fn lemma_policy_or_prompt(
    log: Seq<Exchange>,
    at: int,
    windows: bool,
    root: Seq<char>,
    raw: Seq<char>,
    signed: Signed,
)
    requires
        0 <= at,
        signed matches Signed::Valid(principal, fingerprint) ==> signed_by(
            windows,
            log,
            root,
            principal,
            fingerprint,
        ),
    ensures
        is_mild(play_policy_or_prompt(log, at, windows, root, raw, signed)),
        play_policy_or_prompt(log, at, windows, root, raw, signed) matches Outcome::Done(true, _)
            ==> policy_allows(windows, log) && accepted_on_terminal(windows, log, root),
{
    lemma_lenient(windows, log, at);
    match play_policy_default_decline(windows, log, at) {
        Outcome::Done(false, k) => {
            lemma_answered(log, k, windows, root, raw, signed);
        },
        _ => {},
    }
}

/// What resolving consent to new content shows.
proof fn lemma_resolved(
    log: Seq<Exchange>,
    at: int,
    windows: bool,
    root: Seq<char>,
    raw: Seq<char>,
)
    requires
        0 <= at,
    ensures
        is_mild(play_resolve_new_consent(log, at, windows, root, raw)),
        play_resolve_new_consent(log, at, windows, root, raw) matches Outcome::Done(true, _)
            ==> signed_by_trusted_key(windows, log, root) || policy_allows(
                windows,
                log,
            ) && accepted_on_terminal(
            windows,
            log,
            root,
        ),
{
    broadcast use {lemma_signature_status, lemma_record_consent};

    lemma_checked(windows, log, at, root);
    match play_signature_status(windows, log, at, root) {
        Outcome::Done(Signed::Valid(principal, fingerprint), a) => {
            lemma_trusted(windows, log, a, fingerprint);
            match play_key_trusted(windows, log, a, fingerprint) {
                Outcome::Done(false, b) => {
                    lemma_policy_or_prompt(
                        log,
                        b,
                        windows,
                        root,
                        raw,
                        Signed::Valid(principal, fingerprint),
                    );
                },
                _ => {},
            }
        },
        Outcome::Done(signed, a) => {
            lemma_policy_or_prompt(log, a, windows, root, raw, signed);
        },
        _ => {},
    }
}

/// What leave to run shows.
proof fn lemma_may_run(
    log: Seq<Exchange>,
    at: int,
    windows: bool,
    root: Seq<char>,
    raw: Seq<char>,
    hash: Seq<char>,
)
    requires
        0 <= at,
    ensures
        is_mild(play_may_run(log, at, windows, root, raw, hash)),
        play_may_run(log, at, windows, root, raw, hash) matches Outcome::Done(true, _)
            ==> consented(windows, log, root, hash),
{
    match asked_text(log, at, Op::EnvVar, seq!["GIT_HOOKS_CONSENT"@]) {
        Outcome::Done(var, a) => {
            match env_decision(var, hash) {
                Some(b) => {
                    if b {
                        assert(accepts_by_variable(log[at], hash));
                    }
                },
                None => {
                    match play_consent_state(log, a) {
                        Outcome::Done(state, b) => {
                            if decision(state, Some(hash)) == Decision::Accepted {
                                assert(accepts_by_record(log[a], hash));
                                lemma_accepted_before(windows, log, b, root);
                            } else {
                                lemma_resolved(log, b, windows, root, raw);
                            }
                        },
                        _ => {},
                    }
                },
            }
        },
        _ => {},
    }
}

// ---------------------------------------------------------------------------
// Laws.
// ---------------------------------------------------------------------------

/// Whether a command is what a configuration has for a hook, with the staged files
/// in place.
pub open spec fn is_configured(
    list: Seq<Node>,
    staged: Seq<Seq<char>>,
    command: Seq<char>,
) -> bool {
    exists|i: int|
        0 <= i < list.len() && (hook_cmd(#[trigger] list[i]) matches Some(c) && command_for(
            c,
            staged,
        ) == Some(command))
}

/// The commands that are run are configured, and the namespace is pinned.
proof fn lemma_commands(
    log: Seq<Exchange>,
    at: int,
    root: Seq<char>,
    hook: Seq<char>,
    args: Seq<Seq<char>>,
    list: Seq<Node>,
    staged: Seq<Seq<char>>,
    i: int,
)
    requires
        0 <= i,
    ensures
        play_commands(log, at, root, hook, args, list, staged, i) matches Outcome::Stop(
            Stop::Ask(op, words),
        ) ==> pinned(op, words) && (op == Op::Report || op == Op::Shell && exists|
            command: Seq<char>,
        | words == seq![root, command] + args && #[trigger] is_configured(list, staged, command)),
    decreases list.len() - i,
{
    if i < list.len() {
        match hook_cmd(list[i]) {
            None => {
                lemma_commands(log, at, root, hook, args, list, staged, i + 1);
            },
            Some(c) => {
                match command_for(c, staged) {
                    None => {
                        match play_tell(
                            log,
                            at,
                            hook_notice(hook, "skipped (no matching staged files): "@, c.run),
                        ) {
                            Outcome::Done(_, k) => {
                                lemma_commands(log, k, root, hook, args, list, staged, i + 1);
                            },
                            _ => {},
                        }
                    },
                    Some(command) => {
                        assert(is_configured(list, staged, command));
                        match play_command(log, at, root, hook, args, c.run, command) {
                            Outcome::Done(code, k) => {
                                lemma_commands(log, k, root, hook, args, list, staged, i + 1);
                            },
                            _ => {},
                        }
                    },
                }
            },
        }
    }
}

/// Whether an exchange shows the text of the configuration.
pub open spec fn shows_config(windows: bool, e: Exchange, root: Seq<char>, raw: Seq<char>) -> bool {
    e.request.op == Op::ReadText && texts(
        e.request.words@,
    ) == seq![path_joined(windows, root, CONFIG_FILE@)]
        && (e.reply matches Reply::Text(Some(text)) && text@ == raw)
}

/// Whether a command, to be run in the repository at `root`, is what the
/// configuration that is there has for a hook.
pub open spec fn from_config(
    windows: bool,
    log: Seq<Exchange>,
    root: Seq<char>,
    hook: Seq<char>,
    command: Seq<char>,
) -> bool {
    exists|i: int, raw: Seq<char>, list: Seq<Node>, staged: Seq<Seq<char>>|
        0 <= i < log.len() && #[trigger] shows_config(windows, log[i], root, raw) && (toml_parsed(
            raw,
        ) matches Ok(doc) && entries_for(doc, hook) == Some(list)) && #[trigger] is_configured(
            list,
            staged,
            command,
        )
}

/// Whether the program, or a part of it, that stops for the given reason pins the
/// namespace, and asks to run a command only with consent and from the
/// configuration.
spec fn gated(
    windows: bool,
    log: Seq<Exchange>,
    hook: Seq<char>,
    args: Seq<Seq<char>>,
    s: Stop,
) -> bool {
    s matches Stop::Ask(op, words) ==> pinned(op, words) && (op == Op::Shell ==> exists|
        root: Seq<char>,
        hash: Seq<char>,
        command: Seq<char>,
    |
        words == seq![root, command] + args && content_has_hash(
            windows,
            log,
            hash,
        ) && #[trigger] consented(
            windows,
            log,
            root,
            hash,
        ) && #[trigger] from_config(windows, log, root, hook, command))
}

/// What a hook asks to run, it has consent for and has from the configuration.
proof fn lemma_run_hook(
    log: Seq<Exchange>,
    at: int,
    windows: bool,
    hook: Seq<char>,
    args: Seq<Seq<char>>,
)
    requires
        0 <= at,
    ensures
        gated(windows, log, hook, args, hook_ending(play_run_hook(log, at, windows, hook, args))),
{
    broadcast use lemma_consent_hash;

    match play_repo_root(log, at) {
        Outcome::Done(Some(root), a) => {
            match asked_text(log, a, Op::ReadText, seq![path_joined(windows, root, CONFIG_FILE@)]) {
                Outcome::Done(Some(raw), b) => {
                    assert(shows_config(windows, log[a], root, raw));
                    match play_consent_hash(windows, log, b) {
                        Outcome::Done(Some(hash), c) => {
                            assert(content_has_hash(windows, log, hash));
                            lemma_may_run(log, c, windows, root, raw, hash);
                            match play_may_run(log, c, windows, root, raw, hash) {
                                Outcome::Done(true, d) => {
                                    lemma_configured(windows, log, d, a, root, raw, hook, args);
                                },
                                _ => {},
                            }
                        },
                        _ => {},
                    }
                },
                _ => {},
            }
        },
        _ => {},
    }
}

/// What running a configured hook asks to run, it has from the configuration.
proof fn lemma_configured(
    windows: bool,
    log: Seq<Exchange>,
    at: int,
    i: int,
    root: Seq<char>,
    raw: Seq<char>,
    hook: Seq<char>,
    args: Seq<Seq<char>>,
)
    requires
        0 <= i < log.len(),
        shows_config(windows, log[i], root, raw),
    ensures
        play_configured(log, at, root, raw, hook, args) matches Outcome::Stop(Stop::Ask(op, words))
            ==> pinned(op, words) && (op == Op::Report || op == Op::GitCaptureIn || op == Op::Shell
            && exists|command: Seq<char>|
            words == seq![root, command] + args && #[trigger] from_config(
                windows,
                log,
                root,
                hook,
                command,
            )),
{
    match toml_parsed(raw) {
        Ok(doc) => {
            match entries_for(doc, hook) {
                Some(list) => {
                    match play_staged_files(log, at, root) {
                        Outcome::Done(staged, k) => {
                            lemma_commands(log, k, root, hook, args, list, staged, 0);
                            match play_commands(log, k, root, hook, args, list, staged, 0) {
                                Outcome::Stop(Stop::Ask(op, words)) => {
                                    if op == Op::Shell {
                                        let command = choose|command: Seq<char>|
                                            words == seq![root, command] + args
                                                && #[trigger] is_configured(list, staged, command);
                                        assert(from_config(windows, log, root, hook, command));
                                    }
                                },
                                _ => {},
                            }
                        },
                        _ => {},
                    }
                },
                None => {},
            }
        },
        _ => {},
    }
}

/// Commands other than `run` are tacit.
proof fn lemma_others(args: Seq<Seq<char>>, log: Seq<Exchange>, windows: bool)
    requires
        args.len() == 0 || args[0] != "run"@,
    ensures
        play_program(args, log, windows) matches Stop::Ask(op, words) ==> op != Op::Shell
            && !on_terminal(op) && pinned(op, words),
{
    reveal(play_program);
    lemma_setup(log, 0, windows);
    if args.len() >= 3 {
        lemma_deciding(windows, log, 0, args[1], args[2], true);
    }
    lemma_deciding(windows, log, 0, seq![], seq![], true);
    lemma_deciding(windows, log, 0, seq![], seq![], false);
    lemma_status(windows, log, 0);
    lemma_diff(windows, log, 0);
    lemma_signing(windows, log, 0, args.skip(1));
}

/// What the program asks to run, it has consent for and has from the
/// configuration.
#[verifier::spinoff_prover]
proof fn lemma_run(args: Seq<Seq<char>>, log: Seq<Exchange>, windows: bool)
    requires
        args.len() > 0,
        args[0] == "run"@,
    ensures
        args.len() >= 2 ==> gated(
            windows,
            log,
            args[1],
            args.skip(2),
            play_program(args, log, windows),
        ),
        args.len() < 2 ==> (play_program(args, log, windows) matches Stop::Ask(op, _) ==> op
            == Op::Report),
{
    lemma_program_runs(args, log, windows);
    if args.len() >= 2 {
        lemma_run_hook(log, 0, windows, args[1], args.skip(2));
    }
}

/// No command of a hook is run without consent. When the program asks for one, it
/// was called to run a hook, and the exchanges show consent to the content that is
/// there: by the environment variable, by a trusted signature, or, where the policy
/// does not decline by default, by the recorded decision or the user's answer. The
/// command is what the configuration has for this hook, and gets the arguments of
/// the hook.
pub proof fn law_no_command_without_consent(
    args: Seq<Seq<char>>,
    log: Seq<Exchange>,
    windows: bool,
    words: Seq<Seq<char>>,
)
    requires
        play_program(args, log, windows) == Stop::Ask(Op::Shell, words),
    ensures
        args.len() >= 2,
        args[0] == "run"@,
        exists|root: Seq<char>, hash: Seq<char>, command: Seq<char>|
            words == seq![root, command] + args.skip(2) && content_has_hash(windows, log, hash)
                && #[trigger] consented(windows, log, root, hash) && #[trigger] from_config(
                windows,
                log,
                root,
                args[1],
                command,
            ),
{
    if args.len() == 0 || args[0] != "run"@ {
        lemma_others(args, log, windows);
    } else {
        lemma_run(args, log, windows);
    }
}

/// A machine whose policy declines by default only ever runs hooks that a trusted
/// key has signed, whatever was accepted before. Only the environment variable can
/// override this, for one call.
pub proof fn law_declining_policy_runs_signed_hooks_only(
    args: Seq<Seq<char>>,
    log: Seq<Exchange>,
    windows: bool,
    words: Seq<Seq<char>>,
)
    requires
        play_program(args, log, windows) == Stop::Ask(Op::Shell, words),
        forall|i: int, doc: Entries|
            0 <= i < log.len() && #[trigger] shows_policy(windows, log[i], doc) ==> declines(doc),
        forall|i: int, hash: Seq<char>|
            0 <= i < log.len() ==> !#[trigger] accepts_by_variable(log[i], hash),
    ensures
        words.len() > 0 && signed_by_trusted_key(windows, log, words[0]),
{
    law_no_command_without_consent(args, log, windows, words);
    let (root, hash, command) = choose|root: Seq<char>, hash: Seq<char>, command: Seq<char>|
        words == seq![root, command] + args.skip(2) && content_has_hash(windows, log, hash)
            && #[trigger] consented(windows, log, root, hash) && #[trigger] from_config(
            windows,
            log,
            root,
            args[1],
            command,
        );
    assert(words[0] == root);
}

/// Whatever the program asks of `ssh-keygen` about signatures, it pins the
/// namespace.
pub proof fn law_namespace_pinned(args: Seq<Seq<char>>, log: Seq<Exchange>, windows: bool)
    ensures
        play_program(args, log, windows) matches Stop::Ask(op, words) ==> pinned(op, words),
{
    if args.len() == 0 || args[0] != "run"@ {
        lemma_others(args, log, windows);
    } else {
        lemma_run(args, log, windows);
    }
}

/// The environment variable decides on its own and is never recorded. Where it
/// declines, the hook ends at once and successfully. Where it accepts, all that is
/// asked for is which files are staged, to say something, and to run commands.
pub proof fn law_override_is_not_recorded(
    log: Seq<Exchange>,
    windows: bool,
    hook: Seq<char>,
    args: Seq<Seq<char>>,
    root: Seq<char>,
    raw: Seq<char>,
    hash: Seq<char>,
    var: Option<Seq<char>>,
    accept: bool,
    a: int,
    b: int,
    c: int,
    d: int,
)
    requires
        play_repo_root(log, 0) == Outcome::Done(Some(root), a),
        asked_text(
            log,
            a,
            Op::ReadText,
            seq![path_joined(windows, root, CONFIG_FILE@)],
        ) == Outcome::Done(
            Some(raw),
            b,
        ),
        play_consent_hash(windows, log, b) == Outcome::Done(Some(hash), c),
        asked_text(log, c, Op::EnvVar, seq!["GIT_HOOKS_CONSENT"@]) == Outcome::Done(var, d),
        env_decision(var, hash) == Some(accept),
    ensures
        !accept ==> play_run_hook(log, 0, windows, hook, args) == Outcome::Done(0i32, d),
        play_run_hook(log, 0, windows, hook, args) matches Outcome::Stop(Stop::Ask(op, _)) ==> op
            == Op::GitCaptureIn || op == Op::Report || op == Op::Shell,
{
    assert(shows_config(windows, log[a], root, raw));
    lemma_configured(windows, log, d, a, root, raw, hook, args);
}

/// A decision that was recorded for this very content holds: nobody is asked
/// again, and hooks run or do not run accordingly. All that stands above an
/// acceptance is a policy that declines by default.
pub proof fn law_recorded_decision_holds(
    log: Seq<Exchange>,
    at: int,
    windows: bool,
    root: Seq<char>,
    raw: Seq<char>,
    hash: Seq<char>,
    accept: bool,
    var: Option<Seq<char>>,
    a: int,
    b: int,
)
    requires
        asked_text(log, at, Op::EnvVar, seq!["GIT_HOOKS_CONSENT"@]) == Outcome::Done(var, a),
        env_decision(var, hash) is None,
        play_consent_state(log, a) == Outcome::Done(Some(verdict(accept, hash)), b),
    ensures
        !accept ==> play_may_run(log, at, windows, root, raw, hash) == Outcome::Done(false, b),
        accept ==> play_may_run(log, at, windows, root, raw, hash) == play_accepted_before(
            windows,
            log,
            b,
            root,
        ),
        accept ==> (play_policy_default_decline(windows, log, b) matches Outcome::Done(false, c)
            ==> play_may_run(log, at, windows, root, raw, hash) == Outcome::Done(true, c)),
        is_tacit(play_may_run(log, at, windows, root, raw, hash)),
{
    broadcast use lemma_signature_status;

    law_decision_holds(accept, hash);
}

/// A decision that was recorded for other content counts for nothing: consent is
/// resolved as if there were none.
pub proof fn law_changed_content_is_resolved_again(
    log: Seq<Exchange>,
    at: int,
    windows: bool,
    root: Seq<char>,
    raw: Seq<char>,
    hash: Seq<char>,
    accept: bool,
    other: Seq<char>,
    var: Option<Seq<char>>,
    a: int,
    b: int,
)
    requires
        asked_text(log, at, Op::EnvVar, seq!["GIT_HOOKS_CONSENT"@]) == Outcome::Done(var, a),
        env_decision(var, hash) is None,
        play_consent_state(log, a) == Outcome::Done(Some(verdict(accept, other)), b),
        other != hash,
    ensures
        play_may_run(log, at, windows, root, raw, hash) == play_resolve_new_consent(
            log,
            b,
            windows,
            root,
            raw,
        ),
{
    law_other_content_is_undecided(accept, other, hash);
}

/// Without a terminal nobody consents: all that is done is to say so.
pub proof fn law_no_consent_without_terminal(
    log: Seq<Exchange>,
    at: int,
    windows: bool,
    root: Seq<char>,
    raw: Seq<char>,
    signed: Signed,
    k: int,
)
    requires
        asked_flag(log, at, Op::OpenTerminal, seq![devices(windows).0, devices(windows).1])
            == Outcome::Done(false, k),
    ensures
        play_prompt_consent(log, at, windows, root, raw, signed) == (match play_tell(
            log,
            k,
            no_terminal_notice(),
        ) {
            Outcome::Done(_, m) => Outcome::Done(false, m),
            Outcome::Stop(s) => Outcome::Stop(s),
        }),
{
}

/// A policy that declines by default never asks the user: without a trusted
/// signature all that is done is to say so.
pub proof fn law_policy_declines_without_asking(
    log: Seq<Exchange>,
    at: int,
    windows: bool,
    root: Seq<char>,
    raw: Seq<char>,
    signed: Signed,
    k: int,
)
    requires
        play_policy_default_decline(windows, log, at) == Outcome::Done(true, k),
    ensures
        play_policy_or_prompt(log, at, windows, root, raw, signed) == (match play_tell(
            log,
            k,
            policy_notice(),
        ) {
            Outcome::Done(_, m) => Outcome::Done(false, m),
            Outcome::Stop(s) => Outcome::Stop(s),
        }),
{
}

/// A signature by a trusted key accepts, and neither needs a terminal nor asks the
/// policy for its default.
pub proof fn law_trusted_signature_is_not_asked_about(
    log: Seq<Exchange>,
    at: int,
    windows: bool,
    root: Seq<char>,
    raw: Seq<char>,
    principal: Seq<char>,
    fingerprint: Seq<char>,
    a: int,
    b: int,
)
    requires
        play_signature_status(windows, log, at, root) == Outcome::Done(
            Signed::Valid(principal, fingerprint),
            a,
        ),
        play_key_trusted(windows, log, a, fingerprint) == Outcome::Done(true, b),
    ensures
        play_resolve_new_consent(log, at, windows, root, raw) == (match play_record_consent(
            windows,
            log,
            b,
            true,
        ) {
            Outcome::Done(_, c) => match play_tell(log, c, auto_notice(principal, fingerprint)) {
                Outcome::Done(_, d) => Outcome::Done(true, d),
                Outcome::Stop(s) => Outcome::Stop(s),
            },
            Outcome::Stop(s) => Outcome::Stop(s),
        }),
        is_tacit(play_resolve_new_consent(log, at, windows, root, raw)),
{
    lemma_record_consent(windows, log, b, true);
}

/// A signature that does not verify is worth no more than none: it leads to the
/// policy and the prompt, which does not offer to trust a key.
pub proof fn law_invalid_signature_accepts_nothing(
    log: Seq<Exchange>,
    at: int,
    windows: bool,
    root: Seq<char>,
    raw: Seq<char>,
    k: int,
)
    requires
        play_signature_status(windows, log, at, root) == Outcome::Done(Signed::Invalid, k),
    ensures
        play_resolve_new_consent(log, at, windows, root, raw) == play_policy_or_prompt(
            log,
            k,
            windows,
            root,
            raw,
            Signed::Invalid,
        ),
        !offers_trust(Signed::Invalid),
{
}

/// What is recorded is a decision about the content that is there: it names the
/// hash of that content.
pub proof fn law_recorded_for_this_content(
    windows: bool,
    log: Seq<Exchange>,
    at: int,
    accept: bool,
    text: Seq<char>,
)
    requires
        play_record_consent(windows, log, at, accept) == Outcome::<()>::Stop(
            Stop::Ask(Op::Git, state_update(text)),
        ),
    ensures
        exists|hash: Seq<char>|
            #[trigger] verdict(accept, hash) == text && content_has_hash(windows, log, hash),
{
    broadcast use {lemma_consent_hash, lemma_walk, lemma_no_git_in_manifest};

    match play_consent_hash(windows, log, at) {
        Outcome::Done(Some(hash), k) => {
            assert(yields(play_consent_hash(windows, log, at), Some(hash)));
            assert(state_update(text)[3] == text);
            assert(state_update(verdict(accept, hash))[3] == verdict(accept, hash));
        },
        _ => {},
    }
}

/// Writing the manifest records no decision.
broadcast proof fn lemma_no_git_in_manifest(
    windows: bool,
    log: Seq<Exchange>,
    at: int,
    root: Seq<char>,
    files: Seq<Seq<char>>,
    i: int,
)
    ensures
        (#[trigger] play_manifest_from(windows, log, at, root, files, i)) matches Outcome::Stop(
            Stop::Ask(op, words),
        ) ==> op == Op::Git ==> words.len() == 5,
    decreases files.len() - i,
{
    if i < files.len() {
        match play_store_object(log, at, files[i]) {
            Outcome::Done(None, k) => {
                lemma_no_git_in_manifest(windows, log, k, root, files, i + 1);
            },
            Outcome::Done(Some(blob), k) => {
                match play_git(
                    log,
                    k,
                    manifest_addition(manifest_line(path_rel(windows, root, files[i]), blob)),
                ) {
                    Outcome::Done(_, k) => {
                        lemma_no_git_in_manifest(windows, log, k, root, files, i + 1);
                    },
                    _ => {},
                }
            },
            _ => {},
        }
    }
}

/// Declining stays cheap: it records the decision and forgets the manifest. It
/// stores nothing, and asks for nothing else that would change anything.
pub proof fn law_declining_stores_nothing(windows: bool, log: Seq<Exchange>, at: int)
    ensures
        play_record_consent(windows, log, at, false) matches Outcome::Stop(
            Stop::Ask(op, words),
        ) ==> looks(
            op,
            words,
        ) || op == Op::Report || (op == Op::GitCapture && words == manifest_removal()) || (op
            == Op::Git && exists|hash: Seq<char>| words == state_update(
                #[trigger] verdict(false, hash),
            )),
{
    broadcast use lemma_consent_hash;

}

/// Showing the status changes nothing: it looks, and says what it found.
pub proof fn law_status_changes_nothing(windows: bool, log: Seq<Exchange>)
    ensures
        play_status(windows, log, 0) matches Outcome::Stop(
            Stop::Ask(op, words),
        ) ==> looks(op, words) || op
            == Op::Print || op == Op::Report,
{
    broadcast use {lemma_walk, lemma_consent_hash, lemma_signature_line};

}

/// A signature by a key that is not trusted leads to the policy and the prompt,
/// which offers to trust the key.
pub proof fn law_untrusted_signature_is_asked_about(
    log: Seq<Exchange>,
    at: int,
    windows: bool,
    root: Seq<char>,
    raw: Seq<char>,
    principal: Seq<char>,
    fingerprint: Seq<char>,
    a: int,
    b: int,
)
    requires
        play_signature_status(windows, log, at, root) == Outcome::Done(
            Signed::Valid(principal, fingerprint),
            a,
        ),
        play_key_trusted(windows, log, a, fingerprint) == Outcome::Done(false, b),
    ensures
        play_resolve_new_consent(log, at, windows, root, raw) == play_policy_or_prompt(
            log,
            b,
            windows,
            root,
            raw,
            Signed::Valid(principal, fingerprint),
        ),
        offers_trust(Signed::Valid(principal, fingerprint)),
{
}

} // verus!
