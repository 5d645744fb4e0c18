//! What becomes of an answer on the terminal, and what running a hook may change.
use crate::afterwards::law_decision_is_remembered;
use crate::config::{entries_for, CONFIG_FILE};
use crate::consent::{
    decision, env_decision, manifest_addition, manifest_line, play_consent_state,
    play_manifest_from, play_record_consent, play_store_object, verdict, Decision,
};
use crate::content::{or_empty, play_consent_hash, play_hash_object};
use crate::covering::{is_fair, lemma_consent_ends};
use crate::document::{toml_parsed, Node};
use crate::ending::lemma_record_persists;
use crate::git::{play_repo_root, play_staged_files};
use crate::hook::{
    auto_notice, play_accepted_before, play_commands, play_configured, play_may_run,
    play_policy_or_prompt, play_resolve_new_consent,
};
use crate::keeping::{
    all_lines, good_hash, honest, is_line, kept_at, keys_with, lemma_options_differ, lemma_parts,
    lemma_record_after, lemma_trusted_kept, local_keys, values, yields_root, Kept,
};
use crate::paths::{path_joined, path_rel};
use crate::program::{lemma_program_runs, play_program};
use crate::prompt::{
    accepted_blob, added_shown, answer_means, answer_notice, changed_shown, devices, offers_trust,
    play_answer, play_changes, play_git_diff_blob_file, play_prompt_body, play_prompt_consent,
    play_runtime_ref_warning, prompt_shown,
};
use crate::requests::{
    lemma_consent_hash, lemma_prompt_body, lemma_ref_warning, lemma_signature_status, lemma_walk,
    looks, on_terminal, only_looks,
};
use crate::text::{texts, trimmed};
use crate::trust::{
    play_add_local_trusted_key, play_key_trusted, play_policy_default_decline,
    play_signature_status, Signed,
};
use crate::world::{asked_done, asked_flag, asked_text, Exchange, Op, Outcome, Reply, Stop};
use vstd::prelude::*;

verus! {

// ---------------------------------------------------------------------------
// What an answer means.
// ---------------------------------------------------------------------------

/// `y`, `Y` and `yes` accept; `t` and `T` accept and trust the key, where that is offered;
/// every other answer declines. White space at either end is of no account.
pub proof fn law_answers(answer: Seq<char>, offered: bool)
    ensures
        ({
            let t = trimmed(answer);
            let (accepted, trust_key) = answer_means(answer, offered);
            &&& trust_key <==> offered && (t == "t"@ || t == "T"@)
            &&& accepted <==> t == "y"@ || t == "Y"@ || t == "yes"@ || offered && (t == "t"@ || t
                == "T"@)
        }),
{
}

/// Only a valid signature offers to trust a key.
pub proof fn law_trust_is_offered_for_valid_signatures(signed: Signed)
    ensures
        offers_trust(signed) <==> signed is Valid,
{
}

/// Acting on an answer records it for the content that is there, and nothing else changes
/// but the keys that are trusted in the repository: the key of a valid signature is added
/// to them where the answer is `t` or `T`, and they are what they were after any other.
pub proof fn law_answer_is_recorded(
    k: Kept,
    log: Seq<Exchange>,
    at: int,
    root: Seq<char>,
    signed: Signed,
    answer: Seq<char>,
    hash: Seq<char>,
    b: int,
    accepted: bool,
    to: int,
)
    requires
        0 <= at,
        good_hash(k.hash),
        is_fair(k, root),
        all_lines(local_keys(k)),
        signed matches Signed::Valid(_, fingerprint) ==> is_line(fingerprint),
        yields_root(log, at, root),
        play_consent_hash(k.windows, log, at) == Outcome::Done(Some(hash), b),
        accepted ==> yields_root(log, b + 2, root),
        play_answer(k.windows, log, at, signed, answer) == Outcome::Done(accepted, to),
        honest(k, log, at, to),
    ensures
        ({
            let t = trimmed(answer);
            let after = kept_at(k, log, at, to);
            let told_to_trust = signed is Valid && (t == "t"@ || t == "T"@);
            &&& accepted <==> t == "y"@ || t == "Y"@ || t == "yes"@ || told_to_trust
            &&& values(after.config, "hooks.consent"@) == seq![
                (if accepted {
                    "accept:"@
                } else {
                    "decline:"@
                }) + hash,
            ]
            &&& local_keys(after) == (if told_to_trust {
                keys_with(local_keys(k), signed->Valid_1)
            } else {
                local_keys(k)
            })
            &&& after.files == k.files && after.dirs == k.dirs && after.global == k.global
            &&& forall|other: Seq<char>|
                other != "hooks.consent"@ && other != "hooks.consentManifest"@ && other
                    != "hooks.trustedKey"@ ==> #[trigger] values(after.config, other) == values(
                    k.config,
                    other,
                )
        }),
{
    lemma_options_differ();
    lemma_verdicts(accepted, hash);
    reveal_strlit("hooks.consentManifest");
    reveal_strlit("hooks.trustedKey");
    assert("hooks.consentManifest"@.len() != "hooks.trustedKey"@.len());
    let w = k.windows;
    law_answers(answer, offers_trust(signed));
    let m = play_record_consent(w, log, at, accepted)->Done_1;
    let done = play_record_consent(w, log, at, accepted)->Done_0;
    assert(done == ());
    let trusts = answer_means(answer, offers_trust(signed)).1;
    lemma_consent_ends(w, log, at, root, hash, b);
    assert(b <= m) by {
        if accepted {
            lemma_record_after(w, log, at, b, m);
        }
    }
    let n = to - 1;
    assert(m <= n);
    lemma_parts(k, log, at, m, to);
    law_decision_is_remembered(k, log, at, accepted, root, hash, b, m, seq![], 0);
    let k1 = kept_at(k, log, at, m);
    assert(local_keys(k1) == local_keys(k));
    lemma_parts(k1, log, m, n, to);
    if trusts {
        let u = play_add_local_trusted_key(log, m, signed->Valid_1)->Done_0;
        assert(u == ());
        lemma_trusted_kept(k1, log, m, n, signed->Valid_1);
    }
    let k2 = kept_at(k1, log, m, n);
    assert(kept_at(k2, log, n, to) == k2) by {
        reveal_with_fuel(kept_at, 2);
    }
}

/// How a decision is written down.
proof fn lemma_verdicts(accept: bool, hash: Seq<char>)
    ensures
        verdict(accept, hash) == (if accept {
            "accept:"@
        } else {
            "decline:"@
        }) + hash,
{
    reveal_strlit("accept");
    reveal_strlit("decline");
    reveal_strlit(":");
    reveal_strlit("accept:");
    reveal_strlit("decline:");
    assert("accept"@ + ":"@ =~= "accept:"@);
    assert("decline"@ + ":"@ =~= "decline:"@);
    assert(verdict(accept, hash) =~= (if accept {
        "accept:"@
    } else {
        "decline:"@
    }) + hash);
}

/// What was made of an answer is said on the terminal, last, with how to change it.
pub proof fn law_answer_is_said(
    windows: bool,
    log: Seq<Exchange>,
    at: int,
    signed: Signed,
    answer: Seq<char>,
    accepted: bool,
    to: int,
)
    requires
        0 <= at,
        play_answer(windows, log, at, signed, answer) == Outcome::Done(accepted, to),
    ensures
        0 < to <= log.len(),
        log[to - 1].request.op == Op::TellTerminal,
        texts(log[to - 1].request.words@) == seq![
            if accepted {
                "accepted. change your mind anytime: `git hooks accept` / `git hooks decline`.\n"@
            } else {
                "declined. change your mind anytime: `git hooks accept` / `git hooks decline`.\n"@
            },
        ],
{
    broadcast use lemma_record_persists;

    reveal_strlit("accepted");
    reveal_strlit("declined");
    reveal_strlit(". change your mind anytime: `git hooks accept` / `git hooks decline`.\n");
    reveal_strlit("accepted. change your mind anytime: `git hooks accept` / `git hooks decline`.\n");
    reveal_strlit("declined. change your mind anytime: `git hooks accept` / `git hooks decline`.\n");
    assert(answer_notice(true)
        =~= "accepted. change your mind anytime: `git hooks accept` / `git hooks decline`.\n"@);
    assert(answer_notice(false)
        =~= "declined. change your mind anytime: `git hooks accept` / `git hooks decline`.\n"@);
}

/// What is said where a trusted key signed, and nobody is asked.
pub proof fn law_auto_accepting_is_said(principal: Seq<char>, fingerprint: Seq<char>)
    ensures
        auto_notice(principal, fingerprint)
            == "git-hooks: hooks auto-accepted: signed by trusted key "@ + fingerprint + " ("@
            + principal + ")\n"@,
{
}

// ---------------------------------------------------------------------------
// What running a hook may change.
// ---------------------------------------------------------------------------

/// Whether a request is to record a decision, or the content that it is about.
pub open spec fn records(op: Op, words: Seq<Seq<char>>) -> bool {
    ||| op == Op::Git && words.len() == 4 && words[0] == "config"@ && words[1] == "--local"@
        && words[2] == "hooks.consent"@
    ||| op == Op::Git && words.len() == 5 && words[0] == "config"@ && words[1] == "--local"@
        && words[2] == "--add"@ && words[3] == "hooks.consentManifest"@
    ||| op == Op::GitCapture && words == seq![
        "config"@,
        "--local"@,
        "--unset-all"@,
        "hooks.consentManifest"@,
    ]
    ||| op == Op::GitCapture && words.len() == 3 && words[0] == "hash-object"@ && words[1] == "-w"@
}

/// Whether a request is to show how two stored texts differ.
pub open spec fn compares(op: Op, words: Seq<Seq<char>>) -> bool {
    op == Op::GitCapture && words.len() == 4 && words[0] == "--no-pager"@ && words[1] == "diff"@
}

/// Whether a request is to trust one more key in the repository.
pub open spec fn trusts(op: Op, words: Seq<Seq<char>>) -> bool {
    op == Op::Git && words.len() == 5 && words[0] == "config"@ && words[1] == "--local"@ && words[2]
        == "--add"@ && words[3] == "hooks.trustedKey"@
}

/// Whether the user was heard to answer that the key is to be trusted.
pub open spec fn told_to_trust(e: Exchange) -> bool {
    e.request.op == Op::HearTerminal && (e.reply matches Reply::Text(Some(answer)) && (trimmed(
        answer@,
    ) == "t"@ || trimmed(answer@) == "T"@))
}

/// Whether a part of a command asks for no more than to look, to report, to compare and to
/// record.
pub open spec fn is_modest<T>(o: Outcome<T>) -> bool {
    o matches Outcome::Stop(Stop::Ask(op, words)) ==> looks(op, words) || op == Op::Report
        || compares(op, words) || records(op, words)
}

/// Whether a part of a command asks for no more than that, uses the terminal, and trusts a
/// key only where the user said so.
pub open spec fn is_polite<T>(log: Seq<Exchange>, o: Outcome<T>) -> bool {
    o matches Outcome::Stop(Stop::Ask(op, words)) ==> looks(op, words) || op == Op::Report
        || compares(op, words) || records(op, words) || on_terminal(op) || trusts(op, words)
        && exists|j: int| 0 <= j < log.len() && told_to_trust(#[trigger] log[j])
}

/// Writing the manifest is modest.
broadcast proof fn lemma_modest_manifest(
    windows: bool,
    log: Seq<Exchange>,
    at: int,
    root: Seq<char>,
    files: Seq<Seq<char>>,
    i: int,
)
    ensures
        is_modest(#[trigger] play_manifest_from(windows, log, at, root, files, i)),
    decreases files.len() - i,
{
    if i < files.len() {
        match play_store_object(log, at, files[i]) {
            Outcome::Done(None, next) => {
                lemma_modest_manifest(windows, log, next, root, files, i + 1);
            },
            Outcome::Done(Some(blob), next) => {
                let line = manifest_line(path_rel(windows, root, files[i]), blob);
                let w = manifest_addition(line);
                assert(w[0] == "config"@ && w[1] == "--local"@ && w[2] == "--add"@ && w[3]
                    == "hooks.consentManifest"@);
                lemma_modest_manifest(windows, log, next + 1, root, files, i + 1);
            },
            _ => {},
        }
    }
}

/// Comparing files with the manifest is modest.
pub broadcast proof fn lemma_modest_changes(
    windows: bool,
    log: Seq<Exchange>,
    at: int,
    root: Seq<char>,
    manifest: Seq<(Seq<char>, Seq<char>)>,
    current: Seq<Seq<char>>,
    i: int,
    out: Seq<char>,
)
    ensures
        is_modest(#[trigger] play_changes(windows, log, at, root, manifest, current, i, out)),
    decreases current.len() - i,
{
    if i < current.len() {
        let path = path_joined(windows, root, current[i]);
        match play_hash_object(log, at, path) {
            Outcome::Done(cur, a) => {
                match accepted_blob(manifest, current[i]) {
                    Some(old) => {
                        if old == or_empty(cur) {
                            lemma_modest_changes(
                                windows,
                                log,
                                a,
                                root,
                                manifest,
                                current,
                                i + 1,
                                out,
                            );
                        } else {
                            match play_git_diff_blob_file(log, a, old, path) {
                                Outcome::Done(diff, b) => {
                                    lemma_modest_changes(
                                        windows,
                                        log,
                                        b,
                                        root,
                                        manifest,
                                        current,
                                        i + 1,
                                        out + changed_shown(current[i], diff),
                                    );
                                },
                                _ => {},
                            }
                        }
                    },
                    None => {
                        match asked_text(log, a, Op::ReadText, seq![path]) {
                            Outcome::Done(text, b) => {
                                lemma_modest_changes(
                                    windows,
                                    log,
                                    b,
                                    root,
                                    manifest,
                                    current,
                                    i + 1,
                                    out + added_shown(current[i], text),
                                );
                            },
                            _ => {},
                        }
                    },
                }
            },
            _ => {},
        }
    }
}

/// Recording a decision is modest.
pub broadcast proof fn lemma_modest_record(windows: bool, log: Seq<Exchange>, at: int, accept: bool)
    ensures
        is_modest(#[trigger] play_record_consent(windows, log, at, accept)),
{
    broadcast use {lemma_walk, lemma_consent_hash, lemma_modest_manifest};

}

/// Forming the body of the prompt is modest.
broadcast proof fn lemma_modest_body(
    windows: bool,
    log: Seq<Exchange>,
    at: int,
    root: Seq<char>,
    raw: Seq<char>,
)
    ensures
        is_modest(#[trigger] play_prompt_body(windows, log, at, root, raw)),
{
    broadcast use {lemma_walk, lemma_modest_changes};

}

/// Acting on an answer is polite.
proof fn lemma_polite_answer(
    windows: bool,
    log: Seq<Exchange>,
    at: int,
    signed: Signed,
    answer: Seq<char>,
)
    requires
        trimmed(answer) == "t"@ || trimmed(answer) == "T"@ ==> exists|j: int|
            0 <= j < log.len() && told_to_trust(#[trigger] log[j]),
    ensures
        is_polite(log, play_answer(windows, log, at, signed, answer)),
{
    broadcast use lemma_modest_record;

}

/// Asking the user is polite.
#[verifier::rlimit(40)]
proof fn lemma_polite_prompt(
    log: Seq<Exchange>,
    at: int,
    windows: bool,
    root: Seq<char>,
    raw: Seq<char>,
    signed: Signed,
)
    requires
        0 <= at,
    ensures
        is_polite(log, play_prompt_consent(log, at, windows, root, raw, signed)),
{
    broadcast use {lemma_modest_body, lemma_prompt_body, lemma_ref_warning};

    match asked_flag(log, at, Op::OpenTerminal, seq![devices(windows).0, devices(windows).1]) {
        Outcome::Done(true, a) => {
            match play_prompt_body(windows, log, a, root, raw) {
                Outcome::Done(body, b) => {
                    match play_runtime_ref_warning(windows, log, b, root) {
                        Outcome::Done(warning, c) => {
                            let shown = seq![prompt_shown(signed, body, warning)];
                            match asked_done(log, c, Op::TellTerminal, shown) {
                                Outcome::Done(_, d) => {
                                    match asked_text(log, d, Op::HearTerminal, seq![]) {
                                        Outcome::Done(Some(answer), _) => {
                                            let t = trimmed(answer);
                                            if t == "t"@ || t == "T"@ {
                                                assert(told_to_trust(log[d]));
                                            }
                                            lemma_polite_answer(
                                                windows,
                                                log,
                                                d + 1,
                                                signed,
                                                answer,
                                            );
                                        },
                                        _ => {},
                                    }
                                },
                                _ => {},
                            }
                        },
                        _ => {},
                    }
                },
                _ => {},
            }
        },
        _ => {},
    }
}

/// Resolving consent to new content is polite.
#[verifier::rlimit(40)]
proof fn lemma_polite_resolve(
    log: Seq<Exchange>,
    at: int,
    windows: bool,
    root: Seq<char>,
    raw: Seq<char>,
)
    requires
        0 <= at,
    ensures
        is_polite(log, play_resolve_new_consent(log, at, windows, root, raw)),
{
    broadcast use {lemma_signature_status, lemma_modest_record};

    match play_signature_status(windows, log, at, root) {
        Outcome::Done(Signed::Valid(principal, fingerprint), a) => {
            lemma_looks_for_key(windows, log, a, fingerprint);
            match play_key_trusted(windows, log, a, fingerprint) {
                Outcome::Done(false, b) => {
                    lemma_polite_policy(
                        log,
                        b,
                        windows,
                        root,
                        raw,
                        Signed::Valid(principal, fingerprint),
                    );
                },
                _ => {},
            }
        },
        Outcome::Done(signed, a) => {
            lemma_polite_policy(log, a, windows, root, raw, signed);
        },
        _ => {},
    }
}

/// Asking whether a key is trusted only looks.
proof fn lemma_looks_for_key(windows: bool, log: Seq<Exchange>, at: int, fingerprint: Seq<char>)
    ensures
        only_looks(play_key_trusted(windows, log, at, fingerprint)),
        play_key_trusted(windows, log, at, fingerprint) matches Outcome::Done(_, k) ==> at <= k,
{
}

/// Going by the policy, or asking the user, is polite.
proof fn lemma_polite_policy(
    log: Seq<Exchange>,
    at: int,
    windows: bool,
    root: Seq<char>,
    raw: Seq<char>,
    signed: Signed,
)
    requires
        0 <= at,
    ensures
        is_polite(log, play_policy_or_prompt(log, at, windows, root, raw, signed)),
{
    match play_policy_default_decline(windows, log, at) {
        Outcome::Done(false, k) => {
            lemma_polite_prompt(log, k, windows, root, raw, signed);
        },
        _ => {},
    }
}

/// Going by a recorded acceptance only looks and reports.
proof fn lemma_polite_before(windows: bool, log: Seq<Exchange>, at: int, root: Seq<char>)
    ensures
        is_modest(play_accepted_before(windows, log, at, root)),
{
    broadcast use lemma_signature_status;

    match play_policy_default_decline(windows, log, at) {
        Outcome::Done(true, a) => {
            match play_signature_status(windows, log, a, root) {
                Outcome::Done(Signed::Valid(_, fingerprint), b) => {
                    lemma_looks_for_key(windows, log, b, fingerprint);
                },
                _ => {},
            }
        },
        _ => {},
    }
}

/// Finding out whether hooks may run is polite.
#[verifier::rlimit(40)]
proof fn lemma_polite_may_run(
    log: Seq<Exchange>,
    at: int,
    windows: bool,
    root: Seq<char>,
    raw: Seq<char>,
    hash: Seq<char>,
)
    requires
        0 <= at,
    ensures
        is_polite(log, play_may_run(log, at, windows, root, raw, hash)),
{
    match asked_text(log, at, Op::EnvVar, seq!["GIT_HOOKS_CONSENT"@]) {
        Outcome::Done(var, a) => {
            if env_decision(var, hash) is None {
                match play_consent_state(log, a) {
                    Outcome::Done(state, b) => {
                        if decision(state, Some(hash)) == Decision::Accepted {
                            lemma_polite_before(windows, log, b, root);
                        } else {
                            lemma_polite_resolve(log, b, windows, root, raw);
                        }
                    },
                    _ => {},
                }
            }
        },
        _ => {},
    }
}

/// Running commands asks to report and for the shell.
proof fn lemma_commands_ask(
    log: Seq<Exchange>,
    at: int,
    root: Seq<char>,
    hook: Seq<char>,
    args: Seq<Seq<char>>,
    list: Seq<Node>,
    staged: Seq<Seq<char>>,
    i: int,
)
    ensures
        play_commands(log, at, root, hook, args, list, staged, i) matches Outcome::Stop(
            Stop::Ask(op, _),
        ) ==> op == Op::Report || op == Op::Shell,
    decreases list.len() - i,
{
    if i < list.len() {
        lemma_commands_ask(log, at, root, hook, args, list, staged, i + 1);
        lemma_commands_ask(log, at + 1, root, hook, args, list, staged, i + 1);
        lemma_commands_ask(log, at + 2, root, hook, args, list, staged, i + 1);
    }
}

/// Running a hook asks to look, to report, to use the terminal, to compare, to record a
/// decision and what it is about, and for the shell. It asks to trust a key only where the
/// user answered `t` or `T` on the terminal. It asks for nothing else: no file is written,
/// and no other configuration.
#[verifier::rlimit(60)]
pub proof fn law_running_changes_little(
    args: Seq<Seq<char>>,
    log: Seq<Exchange>,
    windows: bool,
    op: Op,
    words: Seq<Seq<char>>,
)
    requires
        args.len() > 0,
        args[0] == "run"@,
        play_program(args, log, windows) == Stop::Ask(op, words),
    ensures
        looks(op, words) || op == Op::Report || op == Op::Shell || on_terminal(op) || compares(
            op,
            words,
        ) || records(op, words) || trusts(op, words) && exists|j: int|
            0 <= j < log.len() && told_to_trust(#[trigger] log[j]),
{
    broadcast use lemma_consent_hash;

    lemma_program_runs(args, log, windows);
    if args.len() >= 2 {
        let hook = args[1];
        let more = args.skip(2);
        match play_repo_root(log, 0) {
            Outcome::Done(Some(root), a) => {
                let config = seq![path_joined(windows, root, CONFIG_FILE@)];
                match asked_text(log, a, Op::ReadText, config) {
                    Outcome::Done(Some(raw), b) => {
                        match play_consent_hash(windows, log, b) {
                            Outcome::Done(Some(hash), c) => {
                                lemma_polite_may_run(log, c, windows, root, raw, hash);
                                match play_may_run(log, c, windows, root, raw, hash) {
                                    Outcome::Done(true, d) => {
                                        lemma_configured_asks(log, d, root, raw, hook, more);
                                    },
                                    _ => {},
                                }
                            },
                            _ => {},
                        }
                    },
                    _ => {},
                }
            },
            _ => {},
        }
    }
}

/// Running the hook that a configuration defines looks, reports and asks for the shell.
proof fn lemma_configured_asks(
    log: Seq<Exchange>,
    at: int,
    root: Seq<char>,
    raw: Seq<char>,
    hook: Seq<char>,
    args: Seq<Seq<char>>,
)
    ensures
        play_configured(log, at, root, raw, hook, args) matches Outcome::Stop(
            Stop::Ask(op, words),
        ) ==> looks(op, words) || op == Op::Report || op == Op::Shell,
{
    if let Ok(doc) = toml_parsed(raw) {
        if let Some(list) = entries_for(doc, hook) {
            match play_staged_files(log, at, root) {
                Outcome::Done(staged, b) => {
                    lemma_commands_ask(log, b, root, hook, args, list, staged, 0);
                },
                _ => {},
            }
        }
    }
}

} // verus!
