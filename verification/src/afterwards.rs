//! What one call of the program means for a later one.
use crate::config::{CONFIG_FILE, HOOKS_DIR};
use crate::consent::{
    decision, law_decision_read_back, play_consent_state, play_read_manifest, play_record_consent,
    state_query, verdict, Decision,
};
use crate::content::{play_canonical_content, play_consent_hash, play_githooks_dir_files};
use crate::covering::{
    found_files, is_fair, is_tree, law_consent_hash_tells_content, lemma_consent_ends,
    lemma_consent_found, lemma_fair_name, lemma_found, lemma_same_files, same_content,
};
use crate::hook::{
    play_configured, play_may_run, play_policy_or_prompt, play_resolve_new_consent, play_run_hook,
};
use crate::keeping::{
    blobs_from, fair_pairs, good_hash, honest, idle, idles, is_word, kept_after, kept_at,
    last_value, law_decision_comes_back, lemma_canonical_told, lemma_consent_told, lemma_idles,
    lemma_manifest_kept, lemma_options_differ, lemma_parts, lemma_policy_told, lemma_record_after,
    lemma_recorded, lemma_walk_idles, manifest_of, same_but_decision, tells, values, variable,
    yields_root, Kept,
};
use crate::order::{lemma_total, path_order, up_to};
use crate::paths::{law_rel_of_join, path_joined, path_rel};
use crate::requests::{law_changed_content_is_resolved_again, law_recorded_decision_holds};
use crate::text::{is_space, lemma_trimmed_line, texts};
use crate::trust::{
    play_allowed_principals, play_key_trusted, play_local_trusted_keys, play_policy,
    play_policy_default_decline, play_signature_status, play_ssh_verify, play_try_principals,
    sig_path, signers_path, Signed,
};
use crate::world::{asked_text, Exchange, Op, Outcome, Reply};
use vstd::prelude::*;

verus! {

// ---------------------------------------------------------------------------
// A decision is remembered.
// ---------------------------------------------------------------------------

/// Whether the name of a file, seen from the repository, can be written down.
spec fn fair_rel(windows: bool, root: Seq<char>, path: Seq<char>) -> bool {
    let name = path_rel(windows, root, path);
    name.len() > 0 && !is_space(name[0]) && !name.contains('\n') && !name.contains('\t')
}

/// The blobs of files whose names can be written down.
proof fn lemma_fair_blobs(
    windows: bool,
    k: Kept,
    root: Seq<char>,
    files: Seq<Seq<char>>,
    i: int,
)
    requires
        0 <= i,
        good_hash(k.hash),
        forall|j: int| 0 <= j < files.len() ==> fair_rel(windows, root, #[trigger] files[j]),
    ensures
        fair_pairs(blobs_from(windows, k, root, files, i)),
    decreases files.len() - i,
{
    if i < files.len() {
        lemma_fair_blobs(windows, k, root, files, i + 1);
        let rest = blobs_from(windows, k, root, files, i + 1);
        let all = blobs_from(windows, k, root, files, i);
        assert(fair_rel(windows, root, files[i]));
        if k.files.contains_key(files[i]) {
            assert(is_word((k.hash)(k.files[files[i]])));
            assert forall|j: int| 0 <= j < all.len() implies ({
                let (path, blob) = #[trigger] all[j];
                &&& !path.contains('\t')
                &&& !path.contains('\n')
                &&& path.len() > 0
                &&& !is_space(path[0])
                &&& is_word(blob)
            }) by {
                if j > 0 {
                    assert(all[j] == rest[j - 1]);
                    assert(is_word(rest[j - 1].1));
                }
            }
        } else {
            assert(all =~= rest);
        }
    }
}

/// The manifest of a repository can be written down.
proof fn lemma_fair_manifest(k: Kept, root: Seq<char>, files: Seq<Seq<char>>)
    requires
        good_hash(k.hash),
        is_fair(k, root),
        forall|j: int| 0 <= j < files.len() ==> fair_rel(k.windows, root, #[trigger] files[j]),
    ensures
        fair_pairs(manifest_of(k.windows, k, root, files)),
{
    reveal_strlit(".githooks.toml");
    let w = k.windows;
    let config = path_joined(w, root, CONFIG_FILE@);
    let name = CONFIG_FILE@;
    assert(name == ".githooks.toml"@);
    assert(name.len() == 14 && name[0] == '.' && name[1] == 'g' && name.last() == 'l');
    law_rel_of_join(w, root, name);
    let all = seq![config] + files;
    assert forall|j: int| 0 <= j < all.len() implies fair_rel(w, root, #[trigger] all[j]) by {
        if j > 0 {
            assert(all[j] == files[j - 1]);
        }
    }
    lemma_fair_blobs(w, k, root, all, 0);
}

/// The files that are walked for the manifest are those that the consent hash is of.
proof fn lemma_found_again(
    k: Kept,
    log: Seq<Exchange>,
    at: int,
    root: Seq<char>,
    hash: Seq<char>,
    b: int,
    to: int,
)
    requires
        0 <= at,
        good_hash(k.hash),
        is_fair(k, root),
        yields_root(log, at, root),
        play_consent_hash(k.windows, log, at) == Outcome::Done(Some(hash), b),
        yields_root(log, b + 2, root),
        play_record_consent(k.windows, log, at, true) == Outcome::Done((), to),
        honest(k, log, at, to),
        honest(k, log, at, b),
        idles(log, at, b),
    ensures
        play_githooks_dir_files(k.windows, log, b + 3, root) is Done,
        found_files(k, log, b + 3, root) == found_files(k, log, at + 3, root),
{
    let w = k.windows;
    let order = path_order(w);
    let files = found_files(k, log, b + 3, root);
    let c = play_githooks_dir_files(w, log, b + 3, root)->Done_1;
    lemma_consent_found(k, log, at, root, hash, b);
    lemma_walk_idles(w, log, b + 3, seq![path_joined(w, root, HOOKS_DIR@)], seq![]);
    let config = path_joined(w, root, CONFIG_FILE@);
    lemma_manifest_kept(w, k, log, c, root, seq![config] + files, 0, to);
    let k2 = kept_at(k, log, at, b + 3);
    lemma_parts(k, log, at, b, b + 3);
    lemma_idles(k, log, at, b);
    assert(k2.files == k.files && k2.dirs == k.dirs && k2.windows == k.windows) by {
        reveal_with_fuel(kept_at, 4);
    }
    lemma_parts(k, log, at, b + 3, to);
    assert(is_fair(k2, root)) by {
        assert(is_tree(k, path_joined(w, root, HOOKS_DIR@)));
    }
    lemma_found(k2, log, b + 3, root, to);
    lemma_total(order);
    lemma_same_files(files, found_files(k, log, at + 3, root), up_to(order));
}

/// A decision that was recorded comes back when it is read, with the manifest of what
/// was accepted: the configuration, and every file below the directory of hook scripts,
/// each with its blob. Nothing is left of an earlier decision, and nothing else was
/// changed.
pub proof fn law_decision_is_remembered(
    k: Kept,
    log: Seq<Exchange>,
    at: int,
    accept: bool,
    root: Seq<char>,
    hash: Seq<char>,
    b: int,
    to: int,
    log2: Seq<Exchange>,
    at2: int,
)
    requires
        0 <= at,
        0 <= at2,
        good_hash(k.hash),
        is_fair(k, root),
        yields_root(log, at, root),
        play_consent_hash(k.windows, log, at) == Outcome::Done(Some(hash), b),
        accept ==> yields_root(log, b + 2, root),
        play_record_consent(k.windows, log, at, accept) == Outcome::Done((), to),
        honest(k, log, at, to),
        at2 < log2.len() ==> tells(kept_at(k, log, at, to), log2[at2]),
    ensures
        same_but_decision(k, kept_at(k, log, at, to)),
        values(kept_at(k, log, at, to).config, "hooks.consent"@) == seq![verdict(accept, hash)],
        play_consent_state(log2, at2) matches Outcome::Done(state, _) ==> state == Some(
            verdict(accept, hash),
        ) && decision(state, Some(hash)) == (if accept {
            Decision::Accepted
        } else {
            Decision::Declined
        }),
        play_read_manifest(log2, at2) matches Outcome::Done(pairs, _) ==> pairs == (if accept {
            manifest_of(k.windows, k, root, found_files(k, log, at + 3, root))
        } else {
            seq![]
        }),
{
    let w = k.windows;
    let files = found_files(k, log, at + 3, root);
    let a = play_githooks_dir_files(w, log, at + 3, root)->Done_1;
    lemma_consent_ends(w, log, at, root, hash, b);
    lemma_consent_told(w, k, log, at, root, files, a, hash, b);
    assert(b <= to) by {
        if accept {
            lemma_walk_idles(w, log, b + 3, seq![path_joined(w, root, HOOKS_DIR@)], seq![]);
            lemma_manifest_kept(
                w,
                k,
                log,
                play_githooks_dir_files(w, log, b + 3, root)->Done_1,
                root,
                seq![path_joined(w, root, CONFIG_FILE@)] + found_files(k, log, b + 3, root),
                0,
                to,
            );
        }
    }
    lemma_parts(k, log, at, b, to);
    lemma_consent_found(k, log, at, root, hash, b);
    let files2 = if accept {
        found_files(k, log, b + 3, root)
    } else {
        seq![]
    };
    let c = play_githooks_dir_files(w, log, b + 3, root)->Done_1;
    if accept {
        lemma_found_again(k, log, at, root, hash, b, to);
    }
    assert forall|j: int| 0 <= j < files2.len() implies fair_rel(
        w,
        root,
        #[trigger] files2[j],
    ) by {
        assert(files2.contains(files2[j]));
        lemma_fair_name(k, root, files2[j]);
    }
    lemma_fair_manifest(k, root, files2);
    law_decision_comes_back(
        w,
        k,
        log,
        at,
        accept,
        root,
        files,
        a,
        hash,
        b,
        files2,
        c,
        to,
        log2,
        at2,
    );
    lemma_recorded(w, k, log, at, accept, root, files, a, hash, b, root, files2, c, to);
}

// ---------------------------------------------------------------------------
// Changed hooks do not run unattended.
// ---------------------------------------------------------------------------

/// Trying principals leaves everything as it is.
pub proof fn lemma_tried_idles(
    log: Seq<Exchange>,
    at: int,
    signers: Seq<char>,
    sig: Seq<char>,
    content: Seq<char>,
    list: Seq<Seq<char>>,
    i: int,
)
    requires
        0 <= at <= log.len(),
        0 <= i,
    ensures
        play_try_principals(log, at, signers, sig, content, list, i) matches Outcome::Done(_, to)
            ==> idles(log, at, to),
    decreases list.len() - i,
{
    if i < list.len() {
        match play_ssh_verify(log, at, signers, list[i], sig, content) {
            Outcome::Done(None, next) => {
                lemma_tried_idles(log, next, signers, sig, content, list, i + 1);
            },
            _ => {},
        }
    }
}

/// Looking at the signature leaves everything as it is.
proof fn lemma_signature_idles(k: Kept, log: Seq<Exchange>, at: int, root: Seq<char>)
    requires
        0 <= at <= log.len(),
        good_hash(k.hash),
    ensures
        play_signature_status(k.windows, log, at, root) matches Outcome::Done(_, to) ==> idles(
            log,
            at,
            to,
        ),
{
    let w = k.windows;
    match play_canonical_content(w, log, at + 2, root, true) {
        Outcome::Done(content, b) => {
            let files = play_githooks_dir_files(w, log, at + 3, root)->Done_0;
            let mid = play_githooks_dir_files(w, log, at + 3, root)->Done_1;
            if at + 2 <= log.len() {
                lemma_canonical_told(w, k, log, at + 2, root, true, files, mid, content, b);
                match play_allowed_principals(log, b, signers_path(w, root)) {
                    Outcome::Done(list, c) => {
                        lemma_tried_idles(
                            log,
                            c,
                            signers_path(w, root),
                            sig_path(w, root),
                            content,
                            list,
                            0,
                        );
                    },
                    _ => {},
                }
            }
        },
        _ => {},
    }
}

/// Asking whether a key is trusted leaves everything as it is.
proof fn lemma_key_idles(k: Kept, log: Seq<Exchange>, at: int, key: Seq<char>)
    requires
        0 <= at <= log.len(),
    ensures
        play_key_trusted(k.windows, log, at, key) matches Outcome::Done(_, to) ==> idles(
            log,
            at,
            to,
        ),
{
    match play_policy(k.windows, log, at) {
        Outcome::Done(doc, to) => {
            lemma_policy_told(k.windows, k, log, at, doc, to);
            match play_local_trusted_keys(log, to) {
                Outcome::Done(keys, end) => {
                    let words = texts(log[to].request.words@);
                    assert(words == seq![
                        "config"@,
                        "--local"@,
                        "--get-all"@,
                        "hooks.trustedKey"@,
                    ]);
                    assert(words[2] == "--get-all"@);
                },
                _ => {},
            }
        },
        _ => {},
    }
}

/// Whether hooks were accepted or declined in a world, for content of the given hash.
pub open spec fn decides(
    k: Kept,
    log: Seq<Exchange>,
    at: int,
    accept: bool,
    root: Seq<char>,
    hash: Seq<char>,
    b: int,
    to: int,
) -> bool {
    &&& 0 <= at
    &&& good_hash(k.hash)
    &&& is_fair(k, root)
    &&& yields_root(log, at, root)
    &&& play_consent_hash(k.windows, log, at) == Outcome::Done(Some(hash), b)
    &&& accept ==> yields_root(log, b + 2, root)
    &&& play_record_consent(k.windows, log, at, accept) == Outcome::Done((), to)
    &&& honest(k, log, at, to)
}

/// Whether a world is on the same machine as one in which a decision was recorded, still
/// has what was then recorded, and no other decision in the environment.
pub open spec fn remembers(before: Kept, after: Kept, k: Kept, root: Seq<char>) -> bool {
    &&& k.windows == before.windows
    &&& k.hash == before.hash
    &&& is_fair(k, root)
    &&& values(k.config, "hooks.consent"@) == values(after.config, "hooks.consent"@)
    &&& variable(k, "GIT_HOOKS_CONSENT"@) is None
}

/// What is read back of a decision: it is about the content that was there.
#[verifier::rlimit(40)]
proof fn lemma_recalled(
    k: Kept,
    log: Seq<Exchange>,
    at: int,
    accept: bool,
    root: Seq<char>,
    hash: Seq<char>,
    b: int,
    to: int,
    k2: Kept,
    log2: Seq<Exchange>,
    hash2: Seq<char>,
    c: int,
)
    requires
        decides(k, log, at, accept, root, hash, b, to),
        remembers(k, kept_at(k, log, at, to), k2, root),
        yields_root(log2, 2, root),
        play_consent_hash(k.windows, log2, 2) == Outcome::Done(Some(hash2), c),
        honest(k2, log2, 0, log2.len() as int),
        idles(log2, 0, 2),
    ensures
        hash2 == hash <==> same_content(k, k2, root, false),
        idles(log2, 0, c),
        asked_text(log2, c, Op::EnvVar, seq!["GIT_HOOKS_CONSENT"@]) is Done
            ==> asked_text(log2, c, Op::EnvVar, seq!["GIT_HOOKS_CONSENT"@]) == Outcome::Done(
            None::<Seq<char>>,
            c + 1,
        ) && idles(log2, 0, c + 1),
        asked_text(log2, c, Op::EnvVar, seq!["GIT_HOOKS_CONSENT"@]) is Done
            && play_consent_state(log2, c + 1) is Done ==> play_consent_state(log2, c + 1)
            == Outcome::Done(Some(verdict(accept, hash)), c + 2) && idles(log2, 0, c + 2),
{
    lemma_options_differ();
    let w = k.windows;
    let n = log2.len() as int;
    let a = play_githooks_dir_files(w, log, at + 3, root)->Done_1;
    let a2 = play_githooks_dir_files(w, log2, 5, root)->Done_1;
    let files = found_files(k, log, at + 3, root);
    let files2 = found_files(k2, log2, 5, root);
    lemma_consent_ends(w, log, at, root, hash, b);
    lemma_consent_ends(w, log2, 2, root, hash2, c);
    lemma_consent_told(w, k2, log2, 2, root, files2, a2, hash2, c);
    lemma_parts(k2, log2, 0, 2, n);
    lemma_idles(k2, log2, 0, 2);
    lemma_parts(k2, log2, 2, c, n);
    lemma_idles(k2, log2, 2, c);
    assert(idles(log2, 0, c)) by {
        assert forall|i: int| 0 <= i < c implies idle(#[trigger] log2[i]) by {
            if i >= 2 {
            }
        }
    }
    law_decision_is_remembered(k, log, at, accept, root, hash, b, to, seq![], 0);
    assert(b <= to) by {
        if accept {
            lemma_record_after(w, log, at, b, to);
        }
    }
    lemma_parts(k, log, at, b, to);
    law_consent_hash_tells_content(k, log, at, hash, b, k2, log2, 2, hash2, c, root);
    lemma_consent_told(w, k, log, at, root, files, a, hash, b);
    let var = seq!["GIT_HOOKS_CONSENT"@];
    if asked_text(log2, c, Op::EnvVar, var) is Done {
        assert(texts(log2[c].request.words@) == var);
        assert(texts(log2[c].request.words@)[0] == "GIT_HOOKS_CONSENT"@);
        assert(tells(k2, log2[c]));
        assert(kept_after(k2, log2[c]) == k2);
        if play_consent_state(log2, c + 1) is Done {
            assert(honest(k2, log2, c + 1, n));
            assert(tells(k2, log2[c + 1]));
            let words = texts(log2[c + 1].request.words@);
            assert(words == state_query());
            assert(words[2] == "hooks.consent"@);
            assert(last_value(k2.config, "hooks.consent"@) == Some(verdict(accept, hash)));
            let f = log2[c + 1].reply->Ran_0->Ok_0;
            assert(!is_space(hash[0]));
            assert(!is_space(hash[hash.len() - 1]));
            lemma_trimmed_line(hash);
            law_decision_read_back(accept, hash + "\n"@, f);
        }
    }
}

/// Whether the signature is seen to be by a trusted key.
pub open spec fn sees_trust(windows: bool, log: Seq<Exchange>, at: int, root: Seq<char>) -> bool {
    match play_signature_status(windows, log, at, root) {
        Outcome::Done(Signed::Valid(_, fingerprint), at) => play_key_trusted(
            windows,
            log,
            at,
            fingerprint,
        ) matches Outcome::Done(true, _),
        _ => false,
    }
}

/// Without a terminal the policy and the prompt accept nothing, and leave everything as it
/// is.
proof fn lemma_unasked(
    k: Kept,
    log: Seq<Exchange>,
    at: int,
    root: Seq<char>,
    raw: Seq<char>,
    signed: Signed,
    to: int,
)
    requires
        0 <= at <= log.len(),
        forall|j: int|
            0 <= j < log.len() && (#[trigger] log[j]).request.op == Op::OpenTerminal
                ==> log[j].reply == Reply::Flag(false),
        play_policy_or_prompt(log, at, k.windows, root, raw, signed) is Done,
        play_policy_or_prompt(log, at, k.windows, root, raw, signed)->Done_1 == to,
    ensures
        play_policy_or_prompt(log, at, k.windows, root, raw, signed) == Outcome::Done(false, to),
        idles(log, at, to),
{
    let doc = play_policy(k.windows, log, at)->Done_0;
    let u = play_policy(k.windows, log, at)->Done_1;
    lemma_policy_told(k.windows, k, log, at, doc, u);
    assert forall|i: int| at <= i < to implies idle(#[trigger] log[i]) by {
        if i < u {
        }
    }
}

/// Without a terminal and a trusted signature nothing is accepted, and everything is left
/// as it is.
#[verifier::rlimit(40)]
proof fn lemma_unattended(
    k: Kept,
    log: Seq<Exchange>,
    at: int,
    root: Seq<char>,
    raw: Seq<char>,
    to: int,
)
    requires
        0 <= at <= log.len(),
        good_hash(k.hash),
        forall|j: int|
            0 <= j < log.len() && (#[trigger] log[j]).request.op == Op::OpenTerminal
                ==> log[j].reply == Reply::Flag(false),
        !sees_trust(k.windows, log, at, root),
        play_resolve_new_consent(log, at, k.windows, root, raw) is Done,
        play_resolve_new_consent(log, at, k.windows, root, raw)->Done_1 == to,
    ensures
        play_resolve_new_consent(log, at, k.windows, root, raw) == Outcome::Done(false, to),
        idles(log, at, to),
{
    let w = k.windows;
    let signed = play_signature_status(w, log, at, root)->Done_0;
    let s = play_signature_status(w, log, at, root)->Done_1;
    lemma_signature_idles(k, log, at, root);
    let t = match signed {
        Signed::Valid(_, key) => {
            lemma_key_idles(k, log, s, key);
            play_key_trusted(w, log, s, key)->Done_1
        },
        _ => s,
    };
    assert(play_resolve_new_consent(log, at, w, root, raw) == play_policy_or_prompt(
        log,
        t,
        w,
        root,
        raw,
        signed,
    ));
    lemma_unasked(k, log, t, root, raw, signed, to);
    assert forall|i: int| at <= i < to implies idle(#[trigger] log[i]) by {
        if i < s {
        } else if i < t {
        }
    }
}

/// A decision on other content does not let hooks run unattended.
proof fn lemma_refused(
    k: Kept,
    log: Seq<Exchange>,
    accept: bool,
    root: Seq<char>,
    raw: Seq<char>,
    hash: Seq<char>,
    hash2: Seq<char>,
    c: int,
    to: int,
)
    requires
        0 <= c,
        good_hash(k.hash),
        hash2 != hash,
        forall|j: int|
            0 <= j < log.len() && (#[trigger] log[j]).request.op == Op::OpenTerminal
                ==> log[j].reply == Reply::Flag(false),
        !sees_trust(k.windows, log, c + 2, root),
        asked_text(log, c, Op::EnvVar, seq!["GIT_HOOKS_CONSENT"@]) is Done
            ==> asked_text(log, c, Op::EnvVar, seq!["GIT_HOOKS_CONSENT"@]) == Outcome::Done(
            None::<Seq<char>>,
            c + 1,
        ),
        asked_text(log, c, Op::EnvVar, seq!["GIT_HOOKS_CONSENT"@]) is Done && play_consent_state(
            log,
            c + 1,
        ) is Done ==> play_consent_state(log, c + 1) == Outcome::Done(
            Some(verdict(accept, hash)),
            c + 2,
        ) && idles(log, 0, c + 2),
        play_may_run(log, c, k.windows, root, raw, hash2) is Done,
        play_may_run(log, c, k.windows, root, raw, hash2)->Done_1 == to,
    ensures
        play_may_run(log, c, k.windows, root, raw, hash2) == Outcome::Done(false, to),
        idles(log, 0, to),
{
    let w = k.windows;
    let none = None::<Seq<char>>;
    law_changed_content_is_resolved_again(
        log,
        c,
        w,
        root,
        raw,
        hash2,
        accept,
        hash,
        none,
        c + 1,
        c + 2,
    );
    lemma_unattended(k, log, c + 2, root, raw, to);
    assert forall|i: int| 0 <= i < to implies idle(#[trigger] log[i]) by {
        if i >= c + 2 {
        }
    }
}

/// An acceptance of this very content lets hooks run.
proof fn lemma_allowed(
    log: Seq<Exchange>,
    windows: bool,
    root: Seq<char>,
    raw: Seq<char>,
    hash: Seq<char>,
    c: int,
    d: int,
)
    requires
        asked_text(log, c, Op::EnvVar, seq!["GIT_HOOKS_CONSENT"@]) == Outcome::Done(
            None::<Seq<char>>,
            c + 1,
        ),
        play_consent_state(log, c + 1) == Outcome::Done(Some(verdict(true, hash)), c + 2),
        play_policy_default_decline(windows, log, c + 2) == Outcome::Done(false, d),
    ensures
        play_may_run(log, c, windows, root, raw, hash) == Outcome::Done(true, d),
{
    law_recorded_decision_holds(
        log,
        c,
        windows,
        root,
        raw,
        hash,
        true,
        None::<Seq<char>>,
        c + 1,
        c + 2,
    );
}

/// Running a hook to its end takes a decision, where there is a configuration.
proof fn lemma_run_reaches(
    log: Seq<Exchange>,
    windows: bool,
    root: Seq<char>,
    hook: Seq<char>,
    args: Seq<Seq<char>>,
)
    requires
        yields_root(log, 0, root),
        play_run_hook(log, 0, windows, hook, args) is Done,
    ensures
        ({
            let read = asked_text(
                log,
                1,
                Op::ReadText,
                seq![path_joined(windows, root, CONFIG_FILE@)],
            );
            &&& read is Done && read->Done_1 == 2
            &&& read->Done_0 is None ==> play_run_hook(log, 0, windows, hook, args)
                == Outcome::Done(0i32, 2)
            &&& read->Done_0 matches Some(raw) ==> {
                let hashed = play_consent_hash(windows, log, 2);
                &&& hashed is Done && hashed->Done_0 is Some
                &&& play_may_run(
                    log,
                    hashed->Done_1,
                    windows,
                    root,
                    raw,
                    hashed->Done_0->Some_0,
                ) is Done
            }
        }),
{
}

/// Running a hook that may not run ends in success.
proof fn lemma_run_refused(
    log: Seq<Exchange>,
    windows: bool,
    root: Seq<char>,
    raw: Seq<char>,
    hash: Seq<char>,
    c: int,
    to: int,
    hook: Seq<char>,
    args: Seq<Seq<char>>,
)
    requires
        yields_root(log, 0, root),
        asked_text(log, 1, Op::ReadText, seq![path_joined(windows, root, CONFIG_FILE@)])
            == Outcome::Done(Some(raw), 2),
        play_consent_hash(windows, log, 2) == Outcome::Done(Some(hash), c),
        play_may_run(log, c, windows, root, raw, hash) == Outcome::Done(false, to),
    ensures
        play_run_hook(log, 0, windows, hook, args) == Outcome::Done(0i32, to),
{
}

/// Running a hook that may run runs its commands.
proof fn lemma_run_allowed(
    log: Seq<Exchange>,
    windows: bool,
    root: Seq<char>,
    raw: Seq<char>,
    hash: Seq<char>,
    c: int,
    d: int,
    hook: Seq<char>,
    args: Seq<Seq<char>>,
)
    requires
        yields_root(log, 0, root),
        asked_text(log, 1, Op::ReadText, seq![path_joined(windows, root, CONFIG_FILE@)])
            == Outcome::Done(Some(raw), 2),
        play_consent_hash(windows, log, 2) == Outcome::Done(Some(hash), c),
        play_may_run(log, c, windows, root, raw, hash) == Outcome::Done(true, d),
    ensures
        play_run_hook(log, 0, windows, hook, args) == play_configured(
            log,
            d,
            root,
            raw,
            hook,
            args,
        ),
{
}

/// Hooks were accepted or declined, and then their content changed. Without a terminal, and where
/// neither the environment variable nor a trusted signature accepts them, running a hook
/// ends in success, runs no command, and leaves everything as it is, the recorded
/// decision included.
#[verifier::rlimit(40)]
pub proof fn law_changed_hooks_do_not_run_unattended(
    k: Kept,
    log: Seq<Exchange>,
    at: int,
    accept: bool,
    root: Seq<char>,
    hash: Seq<char>,
    b: int,
    to: int,
    k2: Kept,
    log2: Seq<Exchange>,
    hook: Seq<char>,
    args: Seq<Seq<char>>,
    code: i32,
    to2: int,
)
    requires
        decides(k, log, at, accept, root, hash, b, to),
        remembers(k, kept_at(k, log, at, to), k2, root),
        !same_content(k, k2, root, false),
        yields_root(log2, 0, root),
        yields_root(log2, 2, root),
        forall|j: int|
            0 <= j < log2.len() && (#[trigger] log2[j]).request.op == Op::OpenTerminal
                ==> log2[j].reply == Reply::Flag(false),
        forall|j: int| !(#[trigger] sees_trust(k.windows, log2, j, root)),
        play_run_hook(log2, 0, k.windows, hook, args) == Outcome::Done(code, to2),
        honest(k2, log2, 0, log2.len() as int),
    ensures
        code == 0,
        idles(log2, 0, to2),
        kept_at(k2, log2, 0, to2) == k2,
{
    lemma_options_differ();
    let w = k.windows;
    let config = path_joined(w, root, CONFIG_FILE@);
    assert(texts(log2[0].request.words@) == seq!["rev-parse"@, "--show-toplevel"@]);
    assert(texts(log2[0].request.words@)[0] == "rev-parse"@);
    lemma_run_reaches(log2, w, root, hook, args);
    assert(idles(log2, 0, 2));
    let read = asked_text(log2, 1, Op::ReadText, seq![config]);
    if read->Done_0 is Some {
        let raw = read->Done_0->Some_0;
        let hash2 = play_consent_hash(w, log2, 2)->Done_0->Some_0;
        let c = play_consent_hash(w, log2, 2)->Done_1;
        let m = play_may_run(log2, c, w, root, raw, hash2)->Done_1;
        lemma_recalled(k, log, at, accept, root, hash, b, to, k2, log2, hash2, c);
        lemma_refused(k2, log2, accept, root, raw, hash, hash2, c, m);
        lemma_run_refused(log2, w, root, raw, hash2, c, m, hook, args);
    }
    lemma_idles(k2, log2, 0, to2);
}

/// Hooks that were accepted, and stayed as they were, may run.
#[verifier::rlimit(40)]
proof fn lemma_accepted(
    k: Kept,
    log: Seq<Exchange>,
    at: int,
    root: Seq<char>,
    hash: Seq<char>,
    b: int,
    to: int,
    k2: Kept,
    log2: Seq<Exchange>,
    raw: Seq<char>,
    hash2: Seq<char>,
    c: int,
    d: int,
)
    requires
        decides(k, log, at, true, root, hash, b, to),
        remembers(k, kept_at(k, log, at, to), k2, root),
        same_content(k, k2, root, false),
        yields_root(log2, 0, root),
        asked_text(log2, 1, Op::ReadText, seq![path_joined(k.windows, root, CONFIG_FILE@)])
            == Outcome::Done(Some(raw), 2),
        yields_root(log2, 2, root),
        play_consent_hash(k.windows, log2, 2) == Outcome::Done(Some(hash2), c),
        asked_text(log2, c, Op::EnvVar, seq!["GIT_HOOKS_CONSENT"@]) is Done,
        play_consent_state(log2, c + 1) is Done,
        play_policy_default_decline(k.windows, log2, c + 2) == Outcome::Done(false, d),
        honest(k2, log2, 0, log2.len() as int),
    ensures
        idles(log2, 0, d),
        play_may_run(log2, c, k.windows, root, raw, hash2) == Outcome::Done(true, d),
{
    lemma_options_differ();
    let w = k.windows;
    assert(texts(log2[0].request.words@) == seq!["rev-parse"@, "--show-toplevel"@]);
    assert(texts(log2[0].request.words@)[0] == "rev-parse"@);
    assert(idles(log2, 0, 2));
    lemma_recalled(k, log, at, true, root, hash, b, to, k2, log2, hash2, c);
    let doc = play_policy(w, log2, c + 2)->Done_0;
    lemma_policy_told(w, k2, log2, c + 2, doc, d);
    lemma_allowed(log2, w, root, raw, hash, c, d);
    assert forall|i: int| 0 <= i < d implies idle(#[trigger] log2[i]) by {
        if i >= c + 2 {
        }
    }
}

/// Hooks were accepted, and their content is as it was. Where the environment variable
/// says nothing and the policy does not decline by default, running a hook runs its
/// commands, and asks nobody.
#[verifier::rlimit(40)]
pub proof fn law_accepted_hooks_run_unasked(
    k: Kept,
    log: Seq<Exchange>,
    at: int,
    root: Seq<char>,
    hash: Seq<char>,
    b: int,
    to: int,
    k2: Kept,
    log2: Seq<Exchange>,
    hook: Seq<char>,
    args: Seq<Seq<char>>,
    raw: Seq<char>,
    hash2: Seq<char>,
    c: int,
    d: int,
)
    requires
        decides(k, log, at, true, root, hash, b, to),
        remembers(k, kept_at(k, log, at, to), k2, root),
        same_content(k, k2, root, false),
        yields_root(log2, 0, root),
        asked_text(log2, 1, Op::ReadText, seq![path_joined(k.windows, root, CONFIG_FILE@)])
            == Outcome::Done(Some(raw), 2),
        yields_root(log2, 2, root),
        play_consent_hash(k.windows, log2, 2) == Outcome::Done(Some(hash2), c),
        asked_text(log2, c, Op::EnvVar, seq!["GIT_HOOKS_CONSENT"@]) is Done,
        play_consent_state(log2, c + 1) is Done,
        play_policy_default_decline(k.windows, log2, c + 2) == Outcome::Done(false, d),
        honest(k2, log2, 0, log2.len() as int),
    ensures
        idles(log2, 0, d),
        play_run_hook(log2, 0, k.windows, hook, args) == play_configured(
            log2,
            d,
            root,
            raw,
            hook,
            args,
        ),
{
    lemma_accepted(k, log, at, root, hash, b, to, k2, log2, raw, hash2, c, d);
    lemma_run_allowed(log2, k.windows, root, raw, hash2, c, d, hook, args);
}

/// Hooks that were declined, and stayed as they were, may not run.
proof fn lemma_declined(
    log: Seq<Exchange>,
    windows: bool,
    root: Seq<char>,
    raw: Seq<char>,
    hash: Seq<char>,
    c: int,
)
    requires
        asked_text(log, c, Op::EnvVar, seq!["GIT_HOOKS_CONSENT"@]) == Outcome::Done(
            None::<Seq<char>>,
            c + 1,
        ),
        play_consent_state(log, c + 1) == Outcome::Done(Some(verdict(false, hash)), c + 2),
    ensures
        play_may_run(log, c, windows, root, raw, hash) == Outcome::Done(false, c + 2),
{
    law_recorded_decision_holds(
        log,
        c,
        windows,
        root,
        raw,
        hash,
        false,
        None::<Seq<char>>,
        c + 1,
        c + 2,
    );
}

/// Hooks were declined, and their content is as it was. Where the environment variable
/// says nothing, running a hook ends in success as soon as the decision is read: no command
/// is run, nobody is asked, and nothing is said.
#[verifier::rlimit(40)]
pub proof fn law_declined_hooks_stay_off(
    k: Kept,
    log: Seq<Exchange>,
    at: int,
    root: Seq<char>,
    hash: Seq<char>,
    b: int,
    to: int,
    k2: Kept,
    log2: Seq<Exchange>,
    hook: Seq<char>,
    args: Seq<Seq<char>>,
    raw: Seq<char>,
    hash2: Seq<char>,
    c: int,
)
    requires
        decides(k, log, at, false, root, hash, b, to),
        remembers(k, kept_at(k, log, at, to), k2, root),
        same_content(k, k2, root, false),
        yields_root(log2, 0, root),
        asked_text(log2, 1, Op::ReadText, seq![path_joined(k.windows, root, CONFIG_FILE@)])
            == Outcome::Done(Some(raw), 2),
        yields_root(log2, 2, root),
        play_consent_hash(k.windows, log2, 2) == Outcome::Done(Some(hash2), c),
        asked_text(log2, c, Op::EnvVar, seq!["GIT_HOOKS_CONSENT"@]) is Done,
        play_consent_state(log2, c + 1) is Done,
        honest(k2, log2, 0, log2.len() as int),
    ensures
        idles(log2, 0, c + 2),
        play_run_hook(log2, 0, k.windows, hook, args) == Outcome::Done(0i32, c + 2),
{
    lemma_options_differ();
    let w = k.windows;
    assert(texts(log2[0].request.words@) == seq!["rev-parse"@, "--show-toplevel"@]);
    assert(texts(log2[0].request.words@)[0] == "rev-parse"@);
    assert(idles(log2, 0, 2));
    lemma_recalled(k, log, at, false, root, hash, b, to, k2, log2, hash2, c);
    lemma_declined(log2, w, root, raw, hash2, c);
    lemma_run_refused(log2, w, root, raw, hash2, c, c + 2, hook, args);
}

} // verus!
