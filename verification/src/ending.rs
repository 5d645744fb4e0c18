//! How commands end: they give up only where they say why, and otherwise go on to their
//! end.
use crate::commands::{
    config_with, no_config_notice, play_add, play_consent, play_copy_shim, play_copy_shims,
    play_diff, play_init, play_install, play_shim, play_shims, play_status, play_uninstall, USAGE,
};
use crate::config::{known_hooks, CONFIG_FILE};
use crate::consent::{
    manifest_addition, manifest_line, play_manifest_from, play_record_consent, play_store_object,
};
use crate::content::{
    or_empty, paths_in, play_blobs, play_canonical_content, play_consent_hash, play_hash_object,
    play_walk, under_trust,
};
use crate::document::Node;
use crate::git::{play_git, play_home, play_hooks_path, play_repo_root};
use crate::hook::{
    play_auto_accept, play_commands, play_may_run, play_policy_or_prompt, play_resolve_new_consent,
    play_run_hook,
};
use crate::paths::{path_joined, path_rel};
use crate::prompt::{
    accepted_blob, added_shown, changed_shown, play_answer, play_changes, play_git_diff_blob_file,
    play_prompt_body, play_prompt_consent, play_refs, play_runtime_ref_warning, uncovered,
};
use crate::signing::{
    play_add_keys, play_make_signature, play_principal, play_sign, play_ssh_capture, play_ssh_sign,
    play_trust_cmd, play_untrust_cmd, sign_args, trust_args,
};
use crate::text::{joined, texts, trimmed};
use crate::tracing::well_answered;
use crate::trust::{
    key_addition, play_key_trusted, play_signature_status, play_ssh_verify, play_try_principals,
    Signed,
};
use crate::world::{
    asked_flag, asked_listing, asked_text, succeeded, text_of, Exchange, Op, Outcome, Reply, Stop,
};
use vstd::prelude::*;

verus! {

/// Whether every request was answered as it asks, every process took its input, what `git`
/// was told to do was done, there is a home directory, and the user answered.
pub open spec fn goes_well(log: Seq<Exchange>) -> bool {
    &&& well_answered(log)
    &&& forall|i: int|
        0 <= i < log.len() ==> (match (#[trigger] log[i]).reply {
            Reply::Ran(Ok(f)) => f.fed && (log[i].request.op == Op::Git ==> succeeded(f)),
            Reply::Text(t) => (log[i].request.op == Op::HearTerminal || log[i].request.op
                == Op::EnvVar && texts(log[i].request.words@) == seq!["HOME"@]) ==> t is Some,
            _ => true,
        })
}

/// Whether a part of a command comes to its end, or waits for a reply, or was given
/// exchanges that are not its own: it does not give up.
pub open spec fn presses_on<T>(o: Outcome<T>) -> bool {
    o matches Outcome::Stop(s) ==> s is Ask || s is Astray
}

/// Whether a part of a command that starts at `at` does not give up where all goes well.
pub open spec fn persists<T>(log: Seq<Exchange>, at: int, o: Outcome<T>) -> bool {
    0 <= at ==> (o matches Outcome::Done(_, to) ==> at <= to) && (goes_well(log) ==> presses_on(o))
}

/// Whether a part of a command gives up at `at`: it reports `text`, and ends with `code`.
pub open spec fn gives_up<T>(
    log: Seq<Exchange>,
    at: int,
    o: Outcome<T>,
    text: Seq<char>,
    code: i32,
) -> bool {
    &&& o is Stop
    &&& at >= log.len() ==> o->Stop_0 == Stop::Ask(Op::Report, seq![text])
    &&& 0 <= at < log.len() && log[at].request.op == Op::Report && log[at].reply is Done && texts(
        log[at].request.words@,
    ) == seq![text] ==> o->Stop_0 == Stop::Exit(code)
}

// ---------------------------------------------------------------------------
// The parts of commands.
// ---------------------------------------------------------------------------

/// Walking directories does not give up.
pub broadcast proof fn lemma_walk_persists(
    windows: bool,
    log: Seq<Exchange>,
    at: int,
    pending: Seq<Seq<char>>,
    files: Seq<Seq<char>>,
)
    ensures
        persists(log, at, #[trigger] play_walk(windows, log, at, pending, files)),
    decreases log.len() - at, pending.len(),
{
    if 0 <= at && pending.len() > 0 {
        match asked_listing(log, at, pending.last()) {
            Outcome::Done((dirs, found), next) => {
                lemma_walk_persists(
                    windows,
                    log,
                    next,
                    pending.drop_last() + paths_in(windows, pending.last(), dirs),
                    files + paths_in(windows, pending.last(), found),
                );
            },
            _ => {},
        }
    }
}

/// Hashing files does not give up.
pub broadcast proof fn lemma_blobs_persist(
    windows: bool,
    log: Seq<Exchange>,
    at: int,
    root: Seq<char>,
    files: Seq<Seq<char>>,
    exclude_trust: bool,
    i: int,
    out: Seq<(Seq<char>, Seq<char>)>,
)
    ensures
        persists(
            log,
            at,
            #[trigger] play_blobs(windows, log, at, root, files, exclude_trust, i, out),
        ),
    decreases files.len() - i,
{
    if 0 <= at && i < files.len() {
        let path = path_rel(windows, root, files[i]);
        if exclude_trust && under_trust(path) {
            lemma_blobs_persist(windows, log, at, root, files, exclude_trust, i + 1, out);
        } else {
            match play_hash_object(log, at, files[i]) {
                Outcome::Done(blob, next) => {
                    lemma_blobs_persist(
                        windows,
                        log,
                        next,
                        root,
                        files,
                        exclude_trust,
                        i + 1,
                        out.push((path, or_empty(blob))),
                    );
                },
                _ => {},
            }
        }
    }
}

/// Asking for principals does not give up.
pub broadcast proof fn lemma_try_persists(
    log: Seq<Exchange>,
    at: int,
    signers: Seq<char>,
    sig: Seq<char>,
    content: Seq<char>,
    list: Seq<Seq<char>>,
    i: int,
)
    ensures
        persists(
            log,
            at,
            #[trigger] play_try_principals(log, at, signers, sig, content, list, i),
        ),
    decreases list.len() - i,
{
    if 0 <= at && i < list.len() {
        match play_ssh_verify(log, at, signers, list[i], sig, content) {
            Outcome::Done(None, next) => {
                lemma_try_persists(log, next, signers, sig, content, list, i + 1);
            },
            _ => {},
        }
    }
}

/// Looking for files that are not covered does not give up.
pub broadcast proof fn lemma_refs_persist(
    windows: bool,
    log: Seq<Exchange>,
    at: int,
    root: Seq<char>,
    list: Seq<Seq<char>>,
    i: int,
    out: Seq<Seq<char>>,
)
    ensures
        persists(log, at, #[trigger] play_refs(windows, log, at, root, list, i, out)),
    decreases list.len() - i,
{
    if 0 <= at && i < list.len() {
        let path = path_joined(windows, root, list[i]);
        if !uncovered(windows, root, path) {
            lemma_refs_persist(windows, log, at, root, list, i + 1, out);
        } else {
            match asked_flag(log, at, Op::IsFile, seq![path]) {
                Outcome::Done(true, next) => {
                    lemma_refs_persist(windows, log, next, root, list, i + 1, out.push(list[i]));
                },
                Outcome::Done(false, next) => {
                    lemma_refs_persist(windows, log, next, root, list, i + 1, out);
                },
                _ => {},
            }
        }
    }
}

/// Comparing files does not give up.
pub broadcast proof fn lemma_changes_persist(
    windows: bool,
    log: Seq<Exchange>,
    at: int,
    root: Seq<char>,
    manifest: Seq<(Seq<char>, Seq<char>)>,
    current: Seq<Seq<char>>,
    i: int,
    out: Seq<char>,
)
    ensures
        persists(
            log,
            at,
            #[trigger] play_changes(windows, log, at, root, manifest, current, i, out),
        ),
    decreases current.len() - i,
{
    if 0 <= at && i < current.len() {
        let path = path_joined(windows, root, current[i]);
        match play_hash_object(log, at, path) {
            Outcome::Done(cur, a) => match accepted_blob(manifest, current[i]) {
                Some(old) => {
                    if old == or_empty(cur) {
                        lemma_changes_persist(windows, log, a, root, manifest, current, i + 1, out);
                    } else {
                        match play_git_diff_blob_file(log, a, old, path) {
                            Outcome::Done(diff, b) => {
                                let more = out + changed_shown(current[i], diff);
                                lemma_changes_persist(
                                    windows,
                                    log,
                                    b,
                                    root,
                                    manifest,
                                    current,
                                    i + 1,
                                    more,
                                );
                            },
                            _ => {},
                        }
                    }
                },
                None => match asked_text(log, a, Op::ReadText, seq![path]) {
                    Outcome::Done(text, b) => {
                        let more = out + added_shown(current[i], text);
                        lemma_changes_persist(
                            windows,
                            log,
                            b,
                            root,
                            manifest,
                            current,
                            i + 1,
                            more,
                        );
                    },
                    _ => {},
                },
            },
            _ => {},
        }
    }
}

/// Writing the manifest does not give up.
pub broadcast proof fn lemma_manifest_persists(
    windows: bool,
    log: Seq<Exchange>,
    at: int,
    root: Seq<char>,
    files: Seq<Seq<char>>,
    i: int,
)
    ensures
        persists(log, at, #[trigger] play_manifest_from(windows, log, at, root, files, i)),
    decreases files.len() - i,
{
    if 0 <= at && i < files.len() {
        match play_store_object(log, at, files[i]) {
            Outcome::Done(None, next) => {
                lemma_manifest_persists(windows, log, next, root, files, i + 1);
            },
            Outcome::Done(Some(blob), next) => {
                let line = manifest_line(path_rel(windows, root, files[i]), blob);
                match play_git(log, next, manifest_addition(line)) {
                    Outcome::Done(_, b) => {
                        lemma_manifest_persists(windows, log, b, root, files, i + 1);
                    },
                    _ => {},
                }
            },
            _ => {},
        }
    }
}

/// Running commands does not give up.
pub broadcast proof fn lemma_commands_persist(
    log: Seq<Exchange>,
    at: int,
    root: Seq<char>,
    hook: Seq<char>,
    args: Seq<Seq<char>>,
    list: Seq<Node>,
    staged: Seq<Seq<char>>,
    i: int,
)
    ensures
        persists(log, at, #[trigger] play_commands(log, at, root, hook, args, list, staged, i)),
    decreases list.len() - i,
{
    if 0 <= at && i < list.len() {
        lemma_commands_persist(log, at, root, hook, args, list, staged, i + 1);
        lemma_commands_persist(log, at + 1, root, hook, args, list, staged, i + 1);
        lemma_commands_persist(log, at + 2, root, hook, args, list, staged, i + 1);
    }
}

/// Writing shims does not give up.
pub broadcast proof fn lemma_shims_persist(
    windows: bool,
    log: Seq<Exchange>,
    at: int,
    dir: Seq<char>,
    i: int,
)
    ensures
        persists(log, at, #[trigger] play_shims(windows, log, at, dir, i)),
    decreases known_hooks().len() - i,
{
    if 0 <= at && i < known_hooks().len() {
        match play_shim(windows, log, at, dir, known_hooks()[i]) {
            Outcome::Done(_, next) => {
                lemma_shims_persist(windows, log, next, dir, i + 1);
            },
            _ => {},
        }
    }
}

/// Copying shims does not give up.
pub broadcast proof fn lemma_copies_persist(
    windows: bool,
    log: Seq<Exchange>,
    at: int,
    from: Seq<char>,
    to: Seq<char>,
    i: int,
    installed: Seq<Seq<char>>,
    skipped: Seq<Seq<char>>,
)
    ensures
        persists(
            log,
            at,
            #[trigger] play_copy_shims(windows, log, at, from, to, i, installed, skipped),
        ),
    decreases known_hooks().len() - i,
{
    if 0 <= at && i < known_hooks().len() {
        let h = known_hooks()[i];
        match play_copy_shim(log, at, path_joined(windows, from, h), path_joined(windows, to, h)) {
            Outcome::Done(None, next) => {
                lemma_copies_persist(windows, log, next, from, to, i + 1, installed, skipped);
            },
            Outcome::Done(Some(true), next) => {
                lemma_copies_persist(
                    windows,
                    log,
                    next,
                    from,
                    to,
                    i + 1,
                    installed.push(h),
                    skipped,
                );
            },
            Outcome::Done(Some(false), next) => {
                lemma_copies_persist(
                    windows,
                    log,
                    next,
                    from,
                    to,
                    i + 1,
                    installed,
                    skipped.push(h),
                );
            },
            _ => {},
        }
    }
}

/// Adding keys does not give up.
pub broadcast proof fn lemma_keys_persist(
    log: Seq<Exchange>,
    at: int,
    keys: Seq<Seq<char>>,
    i: int,
)
    ensures
        persists(log, at, #[trigger] play_add_keys(log, at, keys, i)),
    decreases keys.len() - i,
{
    if 0 <= at && i < keys.len() {
        match play_git(log, at, key_addition(keys[i])) {
            Outcome::Done(_, next) => {
                lemma_keys_persist(log, next, keys, i + 1);
            },
            _ => {},
        }
    }
}

/// Forming the hash of the content does not give up.
pub broadcast proof fn lemma_content_persists(
    windows: bool,
    log: Seq<Exchange>,
    at: int,
    root: Seq<char>,
    exclude_trust: bool,
)
    ensures
        persists(
            log,
            at,
            #[trigger] play_canonical_content(windows, log, at, root, exclude_trust),
        ),
{
    broadcast use {lemma_walk_persists, lemma_blobs_persist};

}

/// Forming the hash of the content does not give up.
pub broadcast proof fn lemma_hash_persists(windows: bool, log: Seq<Exchange>, at: int)
    ensures
        persists(log, at, #[trigger] play_consent_hash(windows, log, at)),
{
    broadcast use lemma_content_persists;

}

/// Finding out what the signature is worth does not give up.
pub broadcast proof fn lemma_signature_persists(
    windows: bool,
    log: Seq<Exchange>,
    at: int,
    root: Seq<char>,
)
    ensures
        persists(log, at, #[trigger] play_signature_status(windows, log, at, root)),
{
    broadcast use {lemma_content_persists, lemma_try_persists};

}

/// Asking whether a key is trusted does not give up.
pub broadcast proof fn lemma_trust_persists(
    windows: bool,
    log: Seq<Exchange>,
    at: int,
    fingerprint: Seq<char>,
)
    ensures
        persists(log, at, #[trigger] play_key_trusted(windows, log, at, fingerprint)),
{
}

/// Recording a decision does not give up where there is something to decide about.
pub broadcast proof fn lemma_record_persists(
    windows: bool,
    log: Seq<Exchange>,
    at: int,
    accept: bool,
)
    ensures
        0 <= at ==> (#[trigger] play_record_consent(windows, log, at, accept) matches Outcome::Done(
            _,
            to,
        ) ==> at <= to),
        0 <= at && goes_well(log) && !(play_consent_hash(windows, log, at) matches Outcome::Done(
            None,
            _,
        )) ==> presses_on(play_record_consent(windows, log, at, accept)),
{
    broadcast use {lemma_hash_persists, lemma_walk_persists, lemma_manifest_persists};

}

/// `git` that is told to do something and fails is named, with its arguments, and the
/// command ends with 1.
pub proof fn law_git_may_fail(log: Seq<Exchange>, at: int, args: Seq<Seq<char>>)
    requires
        0 <= at < log.len(),
        log[at].request.op == Op::Git,
        texts(log[at].request.words@) == args,
    ensures
        log[at].reply matches Reply::Ran(Ok(f)) ==> if f.code == Some(0i32) {
            play_git(log, at, args) == Outcome::Done((), at + 1)
        } else {
            gives_up(
                log,
                at + 1,
                play_git(log, at, args),
                "git-hooks: `git "@ + joined(args, " "@) + "` failed\n"@,
                1,
            )
        },
{
}

// ---------------------------------------------------------------------------
// Hooks.
// ---------------------------------------------------------------------------

/// Whether `git` names a repository, when it is asked first.
pub open spec fn in_repository(log: Seq<Exchange>) -> bool {
    play_repo_root(log, 0) matches Outcome::Done(Some(_), _)
}

/// Whether content to decide about is found wherever it is looked for.
pub open spec fn content_stays(windows: bool, log: Seq<Exchange>) -> bool {
    forall|j: int|
        0 <= j ==> !(#[trigger] play_consent_hash(windows, log, j) matches Outcome::Done(None, _))
}

/// Forming the body of the prompt does not give up.
broadcast proof fn lemma_body_persists(
    windows: bool,
    log: Seq<Exchange>,
    at: int,
    root: Seq<char>,
    raw: Seq<char>,
)
    ensures
        persists(log, at, #[trigger] play_prompt_body(windows, log, at, root, raw)),
{
    broadcast use {lemma_walk_persists, lemma_changes_persist};

}

/// Forming the warning does not give up.
broadcast proof fn lemma_warning_persists(
    windows: bool,
    log: Seq<Exchange>,
    at: int,
    root: Seq<char>,
)
    ensures
        persists(log, at, #[trigger] play_runtime_ref_warning(windows, log, at, root)),
{
    broadcast use lemma_refs_persist;

}

/// Acting on an answer does not give up.
broadcast proof fn lemma_answer_persists(
    windows: bool,
    log: Seq<Exchange>,
    at: int,
    signed: Signed,
    answer: Seq<char>,
)
    ensures
        content_stays(windows, log) ==> persists(
            log,
            at,
            #[trigger] play_answer(windows, log, at, signed, answer),
        ),
{
    broadcast use lemma_record_persists;

}

/// Asking the user does not give up.
#[verifier::rlimit(40)]
broadcast proof fn lemma_prompt_persists(
    log: Seq<Exchange>,
    at: int,
    windows: bool,
    root: Seq<char>,
    raw: Seq<char>,
    signed: Signed,
)
    ensures
        content_stays(windows, log) ==> persists(
            log,
            at,
            #[trigger] play_prompt_consent(log, at, windows, root, raw, signed),
        ),
{
    broadcast use {lemma_body_persists, lemma_warning_persists, lemma_answer_persists};

}

/// Accepting by signature does not give up.
broadcast proof fn lemma_auto_persists(
    windows: bool,
    log: Seq<Exchange>,
    at: int,
    principal: Seq<char>,
    fingerprint: Seq<char>,
)
    ensures
        content_stays(windows, log) ==> persists(
            log,
            at,
            #[trigger] play_auto_accept(windows, log, at, principal, fingerprint),
        ),
{
    broadcast use lemma_record_persists;

}

/// Going by the policy, or asking the user, does not give up.
broadcast proof fn lemma_policy_persists(
    log: Seq<Exchange>,
    at: int,
    windows: bool,
    root: Seq<char>,
    raw: Seq<char>,
    signed: Signed,
)
    ensures
        content_stays(windows, log) ==> persists(
            log,
            at,
            #[trigger] play_policy_or_prompt(log, at, windows, root, raw, signed),
        ),
{
    broadcast use lemma_prompt_persists;

}

/// Deciding about content that is not decided does not give up.
broadcast proof fn lemma_resolving_persists(
    log: Seq<Exchange>,
    at: int,
    windows: bool,
    root: Seq<char>,
    raw: Seq<char>,
)
    ensures
        content_stays(windows, log) ==> persists(
            log,
            at,
            #[trigger] play_resolve_new_consent(log, at, windows, root, raw),
        ),
{
    broadcast use {
        lemma_signature_persists,
        lemma_trust_persists,
        lemma_auto_persists,
        lemma_policy_persists,
    };

}

/// Deciding does not give up.
broadcast proof fn lemma_deciding_persists(
    log: Seq<Exchange>,
    at: int,
    windows: bool,
    root: Seq<char>,
    raw: Seq<char>,
    hash: Seq<char>,
)
    ensures
        content_stays(windows, log) ==> persists(
            log,
            at,
            #[trigger] play_may_run(log, at, windows, root, raw, hash),
        ),
{
    broadcast use {lemma_signature_persists, lemma_trust_persists, lemma_resolving_persists};

}

/// Running a hook does not give up where all goes well: it comes to an exit code.
pub proof fn law_hook_presses_on(
    log: Seq<Exchange>,
    windows: bool,
    hook: Seq<char>,
    args: Seq<Seq<char>>,
)
    requires
        goes_well(log),
        content_stays(windows, log),
    ensures
        presses_on(play_run_hook(log, 0, windows, hook, args)),
{
    broadcast use {lemma_hash_persists, lemma_deciding_persists, lemma_commands_persist};

}

// ---------------------------------------------------------------------------
// Deciding, and looking.
// ---------------------------------------------------------------------------

/// A decision by command is recorded, where all goes well and there is something to decide
/// about; elsewhere it is said that there is not, and the command ends with 1.
pub proof fn law_deciding_ends(windows: bool, log: Seq<Exchange>, accept: bool)
    ensures
        goes_well(log) && content_stays(windows, log) && in_repository(log)
            ==> presses_on(play_consent(windows, log, 0, accept)),
        play_repo_root(log, 0) matches Outcome::Done(None, b) ==> gives_up(
            log,
            b,
            play_consent(windows, log, 0, accept),
            "no .githooks.toml in this repository\n"@,
            1,
        ),
        play_repo_root(log, 0) matches Outcome::Done(Some(_), b) ==> (play_consent_hash(
            windows,
            log,
            b,
        ) matches Outcome::Done(None, c) ==> gives_up(
            log,
            c,
            play_consent(windows, log, 0, accept),
            "no .githooks.toml in this repository\n"@,
            1,
        )),
{
    broadcast use {lemma_hash_persists, lemma_record_persists};

    lemma_no_config();
    lemma_hash_persists(windows, log, 1);
}

/// What is said where there is no configuration.
proof fn lemma_no_config()
    ensures
        no_config_notice() == "no .githooks.toml in this repository\n"@,
{
    reveal_strlit("no ");
    reveal_strlit(".githooks.toml");
    reveal_strlit(" in this repository\n");
    reveal_strlit("no .githooks.toml in this repository\n");
    assert(no_config_notice() =~= "no .githooks.toml in this repository\n"@);
}

/// Looking comes to its end in a repository; outside of one, that is said, and the command
/// ends with 1.
pub proof fn law_looking_ends(windows: bool, log: Seq<Exchange>)
    ensures
        goes_well(log) && in_repository(log) ==> presses_on(
            play_status(windows, log, 0),
        ),
        goes_well(log) && content_stays(windows, log) && in_repository(log)
            ==> presses_on(play_diff(windows, log, 0)),
        play_repo_root(log, 0) matches Outcome::Done(None, b) ==> gives_up(
            log,
            b,
            play_status(windows, log, 0),
            "not inside a git repository\n"@,
            1,
        ) && gives_up(log, b, play_diff(windows, log, 0), "not inside a git repository\n"@, 1),
{
    if goes_well(log) && in_repository(log) {
        lemma_status_persists(windows, log);
        if content_stays(windows, log) {
            lemma_diff_persists(windows, log);
        }
    }
}

/// Showing the status does not give up.
proof fn lemma_status_persists(windows: bool, log: Seq<Exchange>)
    requires
        goes_well(log),
        in_repository(log),
    ensures
        presses_on(play_status(windows, log, 0)),
{
    broadcast use {
        lemma_walk_persists,
        lemma_hash_persists,
        lemma_signature_persists,
        lemma_trust_persists,
    };

}

/// Showing what changed does not give up.
#[verifier::rlimit(40)]
proof fn lemma_diff_persists(windows: bool, log: Seq<Exchange>)
    requires
        goes_well(log),
        content_stays(windows, log),
        in_repository(log),
    ensures
        presses_on(play_diff(windows, log, 0)),
{
    broadcast use {
        lemma_walk_persists,
        lemma_hash_persists,
        lemma_changes_persist,
        lemma_signature_persists,
        lemma_trust_persists,
    };

}

// ---------------------------------------------------------------------------
// Setting up.
// ---------------------------------------------------------------------------

/// Installing and uninstalling come to their end where all goes well.
pub proof fn law_installing_ends(windows: bool, log: Seq<Exchange>)
    requires
        goes_well(log),
    ensures
        presses_on(play_install(windows, log, 0)),
        presses_on(play_uninstall(windows, log, 0)),
{
    broadcast use lemma_shims_persist;

}

/// The directory that shims are copied from.
pub open spec fn shims_at(windows: bool, home: Seq<char>) -> Seq<char> {
    path_joined(windows, path_joined(windows, home, ".config/git-hooks/template"@), "hooks"@)
}

/// Adopting a repository comes to its end where all goes well; where there is no repository,
/// no template, or no directory for hooks, that is said, and the command ends with 1.
pub proof fn law_adopting_ends(windows: bool, log: Seq<Exchange>)
    ensures
        play_repo_root(log, 0) matches Outcome::Done(None, b) ==> gives_up(
            log,
            b,
            play_init(log, 0, windows),
            "not inside a git repository\n"@,
            1,
        ),
        in_repository(log) ==> (play_home(log, 1) matches Outcome::Done(home, b) ==>
        match asked_flag(
            log,
            b,
            Op::IsDir,
            seq![shims_at(windows, home)],
        ) {
            Outcome::Done(false, c) => gives_up(
                log,
                c,
                play_init(log, 0, windows),
                "no hook template found — run `git hooks install` first.\n"@,
                1,
            ),
            Outcome::Done(true, c) => match play_hooks_path(log, c, windows) {
                Outcome::Done(None, d) => gives_up(
                    log,
                    d,
                    play_init(log, 0, windows),
                    "could not resolve this repo's hooks dir\n"@,
                    1,
                ),
                Outcome::Done(Some(_), _) => goes_well(log) ==> presses_on(
                    play_init(log, 0, windows),
                ),
                _ => true,
            },
            _ => true,
        }),
        goes_well(log) && in_repository(log) ==> presses_on(play_home(log, 1)),
{
    broadcast use lemma_copies_persist;

}

/// Adding a command comes to its end where all goes well. A hook that is not known is said
/// not to be, before anything else, and the command ends with 2.
pub proof fn law_adding_ends(windows: bool, log: Seq<Exchange>, hook: Seq<char>, cmd: Seq<char>)
    ensures
        !known_hooks().contains(hook) ==> gives_up(
            log,
            0,
            play_add(windows, log, 0, hook, cmd),
            "unknown hook '"@ + hook + "'. known: "@ + joined(known_hooks(), ", "@) + "\n"@,
            2,
        ),
        known_hooks().contains(hook) ==> (play_repo_root(log, 0) matches Outcome::Done(None, b)
            ==> gives_up(
            log,
            b,
            play_add(windows, log, 0, hook, cmd),
            "not inside a git repository\n"@,
            1,
        )),
        known_hooks().contains(hook) && goes_well(log) && content_stays(windows, log) ==> (
        play_repo_root(log, 0) matches Outcome::Done(Some(root), b) ==> (asked_text(
            log,
            b,
            Op::ReadText,
            seq![path_joined(windows, root, ".githooks.toml"@)],
        ) matches Outcome::Done(text, _) ==> match config_with(text, hook, cmd) {
            Ok(_) => presses_on(play_add(windows, log, 0, hook, cmd)),
            Err(e) => play_add(windows, log, 0, hook, cmd) == Outcome::<()>::Stop(Stop::Abort(e)),
        })),
{
    broadcast use lemma_record_persists;

}

// ---------------------------------------------------------------------------
// Trusting.
// ---------------------------------------------------------------------------

/// What is said where a repository is needed and there is none.
pub open spec fn needs_repository() -> Seq<char> {
    "not inside a git repository (use --global for the org policy file)\n"@
}

/// Trusting or not trusting a key in a repository comes to its end where all goes well;
/// outside of one that is said, and the command ends with 1; and arguments that do not name
/// one key end in the usage, and 2.
pub proof fn law_trusting_ends(windows: bool, log: Seq<Exchange>, args: Seq<Seq<char>>)
    ensures
        trust_args(args) is None ==> gives_up(
            log,
            0,
            play_trust_cmd(windows, log, 0, args),
            USAGE@,
            2,
        ) && gives_up(log, 0, play_untrust_cmd(windows, log, 0, args), USAGE@, 2),
        trust_args(args) matches Some((_, false)) ==> {
            &&& goes_well(log) && in_repository(log) ==> presses_on(
                play_trust_cmd(windows, log, 0, args),
            ) && presses_on(play_untrust_cmd(windows, log, 0, args))
            &&& play_repo_root(log, 0) matches Outcome::Done(None, b) ==> gives_up(
                log,
                b,
                play_trust_cmd(windows, log, 0, args),
                needs_repository(),
                1,
            ) && gives_up(log, b, play_untrust_cmd(windows, log, 0, args), needs_repository(), 1)
        },
        trust_args(args) matches Some((key, true)) ==> (goes_well(log) ==> {
            &&& play_trust_cmd(windows, log, 0, args) matches Outcome::Stop(Stop::Exit(_)) ==> false
            &&& play_untrust_cmd(windows, log, 0, args) matches Outcome::Stop(Stop::Exit(_))
                ==> false
        }),
{
    broadcast use lemma_keys_persist;

}

// ---------------------------------------------------------------------------
// Signing.
// ---------------------------------------------------------------------------

/// Signing ends in the usage, and 2, without a key. Outside a repository, and in one without
/// a configuration, that is said, and it ends with 1.
pub proof fn law_signing_needs(windows: bool, log: Seq<Exchange>, args: Seq<Seq<char>>)
    ensures
        sign_args(args) is None ==> gives_up(
            log,
            0,
            play_sign(windows, log, 0, args),
            USAGE@,
            2,
        ),
        sign_args(args) is Some ==> match play_repo_root(log, 0) {
            Outcome::Done(None, b) => gives_up(
                log,
                b,
                play_sign(windows, log, 0, args),
                "not inside a git repository\n"@,
                1,
            ),
            Outcome::Done(Some(root), b) => asked_flag(
                log,
                b,
                Op::IsFile,
                seq![path_joined(windows, root, ".githooks.toml"@)],
            ) == Outcome::Done(false, b + 1) ==> gives_up(
                log,
                b + 1,
                play_sign(windows, log, 0, args),
                "no .githooks.toml to sign in this repository\n"@,
                1,
            ),
            _ => true,
        },
{
    reveal_strlit("no ");
    reveal_strlit(".githooks.toml");
    reveal_strlit(" to sign in this repository\n");
    reveal_strlit("no .githooks.toml to sign in this repository\n");
    assert("no "@ + CONFIG_FILE@ + " to sign in this repository\n"@
        =~= "no .githooks.toml to sign in this repository\n"@);
}

/// Where `ssh-keygen` cannot be run, or fails, that is said, with its own words, and signing
/// ends with 1. Where it succeeds, what it wrote is the signature.
pub proof fn law_signature_is_made(
    log: Seq<Exchange>,
    at: int,
    key: Seq<char>,
    content: Seq<char>,
)
    requires
        0 <= at < log.len(),
        log[at].request.op == Op::SshFeed,
        texts(log[at].request.words@) == seq![
            content,
            "-Y"@,
            "sign"@,
            "-f"@,
            key,
            "-n"@,
            "git-hooks"@,
        ],
    ensures
        log[at].reply matches Reply::Ran(Err(e)) ==> gives_up(
            log,
            at + 1,
            play_ssh_sign(log, at, key, content),
            "could not run ssh-keygen: "@ + e@ + "\n"@,
            1,
        ),
        log[at].reply matches Reply::Ran(Ok(f)) ==> (f.fed ==> if f.code == Some(0i32) {
            play_ssh_sign(log, at, key, content) == Outcome::Done(text_of(f.stdout@), at + 1)
        } else {
            gives_up(
                log,
                at + 1,
                play_ssh_sign(log, at, key, content),
                "ssh-keygen sign failed: "@ + trimmed(text_of(f.stderr@)) + "\n"@,
                1,
            )
        }),
{
}

/// Signing comes to its end where all goes well, `ssh-keygen` signs, the signer is known,
/// and the key can be read.
pub proof fn law_signing_ends(
    windows: bool,
    log: Seq<Exchange>,
    args: Seq<Seq<char>>,
    root: Seq<char>,
    key: Seq<char>,
    signer: Option<Seq<char>>,
)
    requires
        goes_well(log),
        sign_args(args) == Some((key, signer)),
        play_repo_root(log, 0) == Outcome::Done(Some(root), 1int),
        asked_flag(log, 1, Op::IsFile, seq![path_joined(windows, root, ".githooks.toml"@)])
            == Outcome::Done(true, 2int),
        play_canonical_content(windows, log, 2, root, true) matches Outcome::Done(content, a)
            ==> presses_on(play_ssh_sign(log, a, key, content)) && presses_on(
            play_principal(log, a + 3, signer),
        ) && (play_principal(log, a + 3, signer) matches Outcome::Done(_, b) ==> !(
        play_ssh_capture(log, b, seq!["-y"@, "-f"@, key]) matches Outcome::Done(None, _))),
    ensures
        presses_on(play_sign(windows, log, 0, args)),
{
    lemma_content_persists(windows, log, 2, root, true);
    match play_canonical_content(windows, log, 2, root, true) {
        Outcome::Done(content, a) => {
            if play_make_signature(windows, log, 2, root, key) is Done {
                match play_principal(log, a + 3, signer) {
                    Outcome::Done(_, b) => {
                        assert(b >= a + 3);
                    },
                    _ => {},
                }
            }
        },
        _ => {},
    }
}

} // verus!
