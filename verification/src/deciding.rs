//! Which decision holds: the environment, the record, the signature, the policy, the user.
use crate::commands::play_consent;
use crate::config::at_most_one;
use crate::consent::{
    decision, env_decision, line_pair, manifest_line, manifest_pairs, play_consent_state,
    play_read_manifest, play_record_consent, verdict, Decision,
};
use crate::content::play_consent_hash;
use crate::git::play_repo_root;
use crate::hook::{
    play_accepted_before, play_configured, play_may_run, play_resolve_new_consent, play_run_hook,
};
use crate::paths::path_joined;
use crate::prompt::{
    devices, play_answer, play_change_prompt_body, play_first_prompt_body, play_prompt_body,
    play_prompt_consent, play_runtime_ref_warning, prompt_shown,
};
use crate::spelling::{law_concat, law_lines};
use crate::text::{before, lemma_before, lemma_before_is, lines_of, texts};
use crate::trust::{play_key_trusted, play_policy_default_decline, play_signature_status, Signed};
use crate::world::{asked_done, asked_text, Exchange, Op, Outcome, Reply, Stop};
use vstd::prelude::*;

verus! {

// ---------------------------------------------------------------------------
// How decisions are written and read.
// ---------------------------------------------------------------------------

/// A decision is written down as the word, a colon, and the hash of the content.
pub proof fn law_verdict(hash: Seq<char>)
    ensures
        verdict(true, hash) == "accept:"@ + hash,
        verdict(false, hash) == "decline:"@ + hash,
{
    reveal_strlit("accept");
    reveal_strlit("decline");
    reveal_strlit(":");
    reveal_strlit("accept:");
    reveal_strlit("decline:");
    assert("accept"@ + ":"@ =~= "accept:"@);
    assert("decline"@ + ":"@ =~= "decline:"@);
}

/// What is recorded accepts content exactly where it is `accept:` with the hash of that
/// content, and declines it where it is `decline:` with that hash. Anything else that is
/// recorded was about other content, and where nothing is there is no decision.
pub proof fn law_decision(state: Option<Seq<char>>, hash: Option<Seq<char>>)
    ensures
        decision(state, hash) == Decision::Accepted <==> (hash matches Some(h) && state == Some(
            "accept:"@ + h,
        )),
        decision(state, hash) == Decision::Declined <==> (hash matches Some(h) && state == Some(
            "decline:"@ + h,
        )),
        decision(state, hash) == Decision::Open <==> state is None,
{
    if let Some(h) = hash {
        law_verdict(h);
        reveal_strlit("accept:");
        reveal_strlit("decline:");
        assert(("accept:"@ + h)[0] == 'a');
        assert(("decline:"@ + h)[0] == 'd');
    }
}

/// The environment variable accepts where it is `accept`, or `accept:` with the hash of
/// the content, declines where it is `decline`, and decides nothing otherwise.
pub proof fn law_environment(var: Option<Seq<char>>, hash: Seq<char>)
    ensures
        env_decision(var, hash) == Some(true) <==> var == Some("accept"@) || var == Some(
            "accept:"@ + hash,
        ),
        env_decision(var, hash) == Some(false) <==> var == Some("decline"@),
{
    law_verdict(hash);
    reveal_strlit("accept");
    reveal_strlit("accept:");
    reveal_strlit("decline");
    assert("accept"@[0] == 'a');
    assert("decline"@[0] == 'd');
    assert(("accept:"@ + hash)[0] == 'a');
}

/// A line of the manifest is a path, a tab and a blob: what stands before the first tab,
/// and what stands behind it. A line without a tab names nothing.
pub proof fn law_manifest_line(line: Seq<char>, path: Seq<char>, blob: Seq<char>)
    ensures
        manifest_line(path, blob) == path + seq!['\t'] + blob,
        line_pair(line) == Some((path, blob)) <==> line == path + seq!['\t'] + blob
            && !path.contains('\t'),
        line_pair(line) is None <==> !line.contains('\t'),
{
    reveal_strlit("\t");
    assert("\t"@ =~= seq!['\t']);
    let k = before(line, '\t');
    lemma_before(line, '\t');
    if k < line.len() {
        assert(line =~= line.take(k) + seq!['\t'] + line.skip(k + 1));
        assert(line.contains(line[k]));
        assert(!line.take(k).contains('\t'));
    } else {
        assert(!line.contains('\t'));
    }
    if line == path + seq!['\t'] + blob && !path.contains('\t') {
        let n = path.len() as int;
        assert(line[n] == '\t');
        assert forall|i: int| 0 <= i < n implies line[i] != '\t' by {
            assert(line[i] == path[i]);
            assert(path.contains(path[i]));
        }
        lemma_before_is(line, '\t', n);
        assert(line.take(n) =~= path);
        assert(line.skip(n + 1) =~= blob);
    }
}

/// A manifest is read line by line.
pub proof fn law_manifest_is_read_by_lines(line: Seq<char>, rest: Seq<char>)
    requires
        !line.contains('\n'),
        line.len() > 0 ==> line.last() != '\r',
    ensures
        manifest_pairs(line + seq!['\n'] + rest) == at_most_one(line_pair(line)) + manifest_pairs(
            rest,
        ),
        line.len() > 0 ==> manifest_pairs(line) == at_most_one(line_pair(line)),
        manifest_pairs(Seq::<char>::empty()) == Seq::<(Seq<char>, Seq<char>)>::empty(),
{
    law_lines(line, rest);
    let one = at_most_one(line_pair(line));
    let none = Seq::<Seq<(Seq<char>, Seq<char>)>>::empty();
    let ls = lines_of(rest);
    let found = Seq::new(ls.len(), |i: int| at_most_one(line_pair(ls[i])));
    let all = lines_of(line + seq!['\n'] + rest);
    assert(Seq::new(all.len(), |i: int| at_most_one(line_pair(all[i]))) =~= seq![one] + found);
    law_concat(seq![one], found, one);
    let single = lines_of(line);
    if line.len() > 0 {
        assert(Seq::new(single.len(), |i: int| at_most_one(line_pair(single[i]))) =~= seq![one]);
    }
    let no_lines = lines_of(Seq::<char>::empty());
    assert(Seq::new(no_lines.len(), |i: int| at_most_one(line_pair(no_lines[i]))) =~= none);
}

// ---------------------------------------------------------------------------
// Which decision holds.
// ---------------------------------------------------------------------------

/// The environment variable is asked first, and where it decides, nothing else is asked.
pub proof fn law_environment_comes_first(
    log: Seq<Exchange>,
    at: int,
    windows: bool,
    root: Seq<char>,
    raw: Seq<char>,
    hash: Seq<char>,
)
    requires
        0 <= at < log.len(),
        log[at].request.op == Op::EnvVar,
        texts(log[at].request.words@) == seq!["GIT_HOOKS_CONSENT"@],
    ensures
        log[at].reply matches Reply::Text(Some(s)) ==> (s@ == "accept"@ || s@ == "accept:"@ + hash
            ==> play_may_run(log, at, windows, root, raw, hash) == Outcome::Done(true, at + 1)),
        log[at].reply matches Reply::Text(Some(s)) ==> (s@ == "decline"@ ==> play_may_run(
            log,
            at,
            windows,
            root,
            raw,
            hash,
        ) == Outcome::Done(false, at + 1)),
{
    if let Reply::Text(Some(s)) = log[at].reply {
        law_environment(Some(s@), hash);
    }
}

/// Where nothing else decides, what is recorded does: hooks that were accepted as they are
/// run as far as the policy lets them, those that were declined as they are do not, and
/// anything else is resolved.
pub proof fn law_record_comes_next(
    log: Seq<Exchange>,
    at: int,
    windows: bool,
    root: Seq<char>,
    raw: Seq<char>,
    hash: Seq<char>,
    var: Option<Seq<char>>,
    state: Option<Seq<char>>,
    a: int,
    b: int,
)
    requires
        asked_text(log, at, Op::EnvVar, seq!["GIT_HOOKS_CONSENT"@]) == Outcome::Done(var, a),
        var != Some("accept"@) && var != Some("accept:"@ + hash) && var != Some("decline"@),
        play_consent_state(log, a) == Outcome::Done(state, b),
    ensures
        state == Some("accept:"@ + hash) ==> play_may_run(log, at, windows, root, raw, hash)
            == play_accepted_before(windows, log, b, root),
        state == Some("decline:"@ + hash) ==> play_may_run(log, at, windows, root, raw, hash)
            == Outcome::Done(false, b),
        state != Some("accept:"@ + hash) && state != Some("decline:"@ + hash) ==> play_may_run(
            log,
            at,
            windows,
            root,
            raw,
            hash,
        ) == play_resolve_new_consent(log, b, windows, root, raw),
{
    law_environment(var, hash);
    law_decision(state, Some(hash));
}

/// Hooks that were accepted run, unless the policy declines by default: then they run only
/// if a trusted key signed them, and it is said where they do not.
pub proof fn law_policy_stands_above_acceptance(
    windows: bool,
    log: Seq<Exchange>,
    at: int,
    root: Seq<char>,
    declines: bool,
    a: int,
)
    requires
        play_policy_default_decline(windows, log, at) == Outcome::Done(declines, a),
    ensures
        !declines ==> play_accepted_before(windows, log, at, root) == Outcome::Done(true, a),
        declines ==> (play_signature_status(windows, log, a, root) matches Outcome::Done(
            Signed::Valid(_, fingerprint),
            b,
        ) ==> (play_key_trusted(windows, log, b, fingerprint) matches Outcome::Done(true, c)
            ==> play_accepted_before(windows, log, at, root) == Outcome::Done(true, c))),
        declines ==> (play_signature_status(windows, log, a, root) matches Outcome::Done(
            Signed::Valid(_, fingerprint),
            b,
        ) ==> (play_key_trusted(windows, log, b, fingerprint) matches Outcome::Done(false, c)
            ==> !(play_accepted_before(windows, log, at, root) matches Outcome::Done(true, _)))),
        declines ==> (play_signature_status(windows, log, a, root) matches Outcome::Done(signed, b)
            ==> (!(signed is Valid) ==> !(play_accepted_before(windows, log, at, root)
            matches Outcome::Done(true, _)))),
{
}

/// New content is resolved by the signature, then by the policy, then by asking: a trusted
/// key accepts; without one a policy that declines by default does; and without that the
/// user is asked.
pub proof fn law_new_content_is_resolved(
    log: Seq<Exchange>,
    at: int,
    windows: bool,
    root: Seq<char>,
    raw: Seq<char>,
    signed: Signed,
    a: int,
    trusted: bool,
    b: int,
    declines: bool,
    c: int,
)
    requires
        play_signature_status(windows, log, at, root) == Outcome::Done(signed, a),
        signed matches Signed::Valid(_, fingerprint) ==> play_key_trusted(
            windows,
            log,
            a,
            fingerprint,
        ) == Outcome::Done(trusted, b),
        !(signed is Valid) ==> !trusted && b == a,
        !trusted ==> play_policy_default_decline(windows, log, b) == Outcome::Done(declines, c),
    ensures
        trusted ==> (play_resolve_new_consent(log, at, windows, root, raw) matches Outcome::Done(
            accepted,
            _,
        ) ==> accepted),
        trusted ==> (play_record_consent(windows, log, b, true) matches Outcome::Stop(s)
            ==> play_resolve_new_consent(log, at, windows, root, raw) == Outcome::<bool>::Stop(s)),
        !trusted && declines ==> (play_resolve_new_consent(log, at, windows, root, raw)
            matches Outcome::Done(accepted, _) ==> !accepted),
        !trusted && declines && c >= log.len() ==> play_resolve_new_consent(
            log,
            at,
            windows,
            root,
            raw,
        ) == Outcome::<bool>::Stop(
            Stop::Ask(
                Op::Report,
                seq![
                    "git-hooks: org policy default is `decline` and no trusted signature — skipping hooks.\n"@,
                ],
            ),
        ),
        !trusted && !declines ==> play_resolve_new_consent(log, at, windows, root, raw)
            == play_prompt_consent(log, c, windows, root, raw, signed),
{
}

/// What the user is shown: who signed, what would run or what changed, that it will run,
/// the warnings, and the choices.
pub open spec fn asks(signed: Signed, body: Seq<char>, warning: Seq<char>) -> Seq<char> {
    match signed {
        Signed::Valid(principal, fingerprint) => "\nsigned by "@ + principal + ", key "@ + fingerprint
            + "\n\n"@ + body
            + "\nthese commands will run on your machine during git operations.\n"@ + warning
            + "[y]es once / [t]rust key / [N]o \n"@,
        Signed::Invalid => "\n"@ + body
            + "\nthese commands will run on your machine during git operations.\nsignature present but INVALID — do not accept unless you understand why.\n"@
            + warning + "accept? [y/N] \n"@,
        Signed::Unsigned => "\n"@ + body
            + "\nthese commands will run on your machine during git operations.\n"@ + warning
            + "accept? [y/N] \n"@,
    }
}

/// The prompt says all of that.
pub proof fn law_prompt_says(signed: Signed, body: Seq<char>, warning: Seq<char>)
    ensures
        prompt_shown(signed, body, warning) == asks(signed, body, warning),
{
    reveal_strlit("\n");
    reveal_strlit("accept? [y/N] ");
    reveal_strlit("accept? [y/N] \n");
    assert("accept? [y/N] "@ + "\n"@ =~= "accept? [y/N] \n"@);
    reveal_strlit("[y]es once / [t]rust key / [N]o ");
    reveal_strlit("[y]es once / [t]rust key / [N]o \n");
    assert("[y]es once / [t]rust key / [N]o "@ + "\n"@ =~= "[y]es once / [t]rust key / [N]o \n"@);
    reveal_strlit("signed by ");
    reveal_strlit("\nsigned by ");
    assert("\n"@ + "signed by "@ =~= "\nsigned by "@);
    reveal_strlit("\nthese commands will run on your machine during git operations.\n");
    reveal_strlit("signature present but INVALID — do not accept unless you understand why.\n");
    reveal_strlit(
        "\nthese commands will run on your machine during git operations.\nsignature present but INVALID — do not accept unless you understand why.\n",
    );
    let run = "\nthese commands will run on your machine during git operations.\n"@;
    let bad = "signature present but INVALID — do not accept unless you understand why.\n"@;
    assert(run + bad
        =~= "\nthese commands will run on your machine during git operations.\nsignature present but INVALID — do not accept unless you understand why.\n"@);
    match signed {
        Signed::Valid(principal, fingerprint) => {
            assert(prompt_shown(signed, body, warning) =~= ("\n"@ + "signed by "@) + principal
                + ", key "@ + fingerprint + "\n\n"@ + body + run + warning + (
            "[y]es once / [t]rust key / [N]o "@ + "\n"@));
        },
        Signed::Invalid => {
            assert(prompt_shown(signed, body, warning) =~= "\n"@ + body + (run + bad) + warning + (
            "accept? [y/N] "@ + "\n"@));
        },
        Signed::Unsigned => {
            assert(prompt_shown(signed, body, warning) =~= "\n"@ + body + run + warning + (
            "accept? [y/N] "@ + "\n"@));
        },
    }
}

/// The user is shown the prompt on the terminal and heard there, and their answer decides.
pub proof fn law_user_decides(
    log: Seq<Exchange>,
    at: int,
    windows: bool,
    root: Seq<char>,
    raw: Seq<char>,
    signed: Signed,
    body: Seq<char>,
    b: int,
    warning: Seq<char>,
    c: int,
    answer: Seq<char>,
)
    requires
        0 <= at < log.len(),
        log[at].request.op == Op::OpenTerminal,
        texts(log[at].request.words@) == (if windows {
            seq!["CONIN$"@, "CONOUT$"@]
        } else {
            seq!["/dev/tty"@, "/dev/tty"@]
        }),
        log[at].reply == Reply::Flag(true),
        play_prompt_body(windows, log, at + 1, root, raw) == Outcome::Done(body, b),
        play_runtime_ref_warning(windows, log, b, root) == Outcome::Done(warning, c),
    ensures
        c >= log.len() ==> play_prompt_consent(log, at, windows, root, raw, signed)
            == Outcome::<bool>::Stop(
            Stop::Ask(Op::TellTerminal, seq![asks(signed, body, warning)]),
        ),
        asked_done(log, c, Op::TellTerminal, seq![asks(signed, body, warning)]) is Done
            && asked_text(log, c + 1, Op::HearTerminal, seq![]) == Outcome::Done(
            Some(answer),
            c + 2,
        ) ==> play_prompt_consent(log, at, windows, root, raw, signed) == play_answer(
            windows,
            log,
            c + 2,
            signed,
            answer,
        ),
{
    law_prompt_says(signed, body, warning);
    assert(seq![devices(windows).0, devices(windows).1] =~= (if windows {
        seq!["CONIN$"@, "CONOUT$"@]
    } else {
        seq!["/dev/tty"@, "/dev/tty"@]
    }));
}

/// The prompt shows the changes where something was accepted before, and the whole
/// configuration otherwise.
pub proof fn law_prompt_body(
    windows: bool,
    log: Seq<Exchange>,
    at: int,
    root: Seq<char>,
    raw: Seq<char>,
    manifest: Seq<(Seq<char>, Seq<char>)>,
    a: int,
)
    requires
        play_read_manifest(log, at) == Outcome::Done(manifest, a),
    ensures
        play_prompt_body(windows, log, at, root, raw) == (if manifest.len() > 0 {
            play_change_prompt_body(windows, log, a, root, manifest)
        } else {
            play_first_prompt_body(windows, log, a, root, raw)
        }),
{
}

/// Without a terminal hooks are not accepted, and it is said how to.
pub proof fn law_no_terminal_no_consent(
    log: Seq<Exchange>,
    at: int,
    windows: bool,
    root: Seq<char>,
    raw: Seq<char>,
    signed: Signed,
)
    requires
        0 <= at < log.len(),
        log[at].request.op == Op::OpenTerminal,
        log[at].reply == Reply::Flag(false),
    ensures
        !(play_prompt_consent(log, at, windows, root, raw, signed) matches Outcome::Done(true, _)),
        play_prompt_consent(log, at, windows, root, raw, signed) matches Outcome::Stop(
            Stop::Ask(op, words),
        ) ==> op == Op::Report && words == seq![
            "git-hooks: this repository defines hooks in .githooks.toml (not yet accepted).\ngit-hooks: no terminal to ask on — skipping them. run `git hooks accept` to enable.\n"@,
        ],
{
    reveal_strlit("git-hooks: this repository defines hooks in ");
    reveal_strlit(".githooks.toml");
    reveal_strlit(
        " (not yet accepted).\ngit-hooks: no terminal to ask on — skipping them. run `git hooks accept` to enable.\n",
    );
    reveal_strlit(
        "git-hooks: this repository defines hooks in .githooks.toml (not yet accepted).\ngit-hooks: no terminal to ask on — skipping them. run `git hooks accept` to enable.\n",
    );
    assert("git-hooks: this repository defines hooks in "@ + ".githooks.toml"@
        + " (not yet accepted).\ngit-hooks: no terminal to ask on — skipping them. run `git hooks accept` to enable.\n"@
        =~= "git-hooks: this repository defines hooks in .githooks.toml (not yet accepted).\ngit-hooks: no terminal to ask on — skipping them. run `git hooks accept` to enable.\n"@);
}

// ---------------------------------------------------------------------------
// What a hook comes to.
// ---------------------------------------------------------------------------

/// Outside a repository, and in one without a configuration, a hook does nothing and ends
/// in success.
pub proof fn law_inert_without_configuration(
    log: Seq<Exchange>,
    windows: bool,
    hook: Seq<char>,
    args: Seq<Seq<char>>,
    root: Option<Seq<char>>,
)
    requires
        play_repo_root(log, 0) == Outcome::Done(root, 1int),
    ensures
        root is None ==> play_run_hook(log, 0, windows, hook, args) == Outcome::Done(0i32, 1int),
        root matches Some(r) ==> (asked_text(
            log,
            1,
            Op::ReadText,
            seq![path_joined(windows, r, ".githooks.toml"@)],
        ) == Outcome::Done(None::<Seq<char>>, 2int) ==> play_run_hook(log, 0, windows, hook, args)
            == Outcome::Done(0i32, 2int)),
{
}

/// Hooks that may run are run, and those that may not end in success with nothing run.
pub proof fn law_consent_is_acted_on(
    log: Seq<Exchange>,
    windows: bool,
    hook: Seq<char>,
    args: Seq<Seq<char>>,
    root: Seq<char>,
    raw: Seq<char>,
    hash: Seq<char>,
    c: int,
)
    requires
        play_repo_root(log, 0) == Outcome::Done(Some(root), 1int),
        asked_text(log, 1, Op::ReadText, seq![path_joined(windows, root, ".githooks.toml"@)])
            == Outcome::Done(Some(raw), 2int),
        play_consent_hash(windows, log, 2) == Outcome::Done(Some(hash), c),
    ensures
        play_may_run(log, c, windows, root, raw, hash) matches Outcome::Done(allowed, d)
            ==> play_run_hook(log, 0, windows, hook, args) == (if allowed {
            play_configured(log, d, root, raw, hook, args)
        } else {
            Outcome::Done(0i32, d)
        }),
        play_may_run(log, c, windows, root, raw, hash) matches Outcome::Stop(s) ==> play_run_hook(
            log,
            0,
            windows,
            hook,
            args,
        ) == Outcome::<i32>::Stop(s),
{
}

/// Deciding by command needs a repository with a configuration: without, that is said, and
/// the command ends in one. With it, the decision is recorded, and then said.
pub proof fn law_deciding_by_command(
    windows: bool,
    log: Seq<Exchange>,
    accept: bool,
    root: Option<Seq<char>>,
    hash: Option<Seq<char>>,
    b: int,
    at: int,
)
    requires
        play_repo_root(log, 0) == Outcome::Done(root, 1int),
        root is Some ==> play_consent_hash(windows, log, 1) == Outcome::Done(hash, b),
        at == (if root is Some {
            b
        } else {
            1
        }),
    ensures
        (root is None || hash is None) && at >= log.len() ==> play_consent(windows, log, 0, accept)
            == Outcome::<()>::Stop(
            Stop::Ask(Op::Report, seq!["no .githooks.toml in this repository\n"@]),
        ),
        root is None || hash is None ==> (play_consent(windows, log, 0, accept)
            matches Outcome::Stop(s) && (s matches Stop::Exit(code) ==> code == 1)),
        root is Some && hash is Some ==> (play_record_consent(windows, log, b, accept)
            matches Outcome::Stop(s) ==> play_consent(windows, log, 0, accept)
            == Outcome::<()>::Stop(s)),
        root is Some && hash is Some ==> (play_record_consent(windows, log, b, accept)
            matches Outcome::Done(_, c) ==> (c >= log.len() ==> play_consent(
            windows,
            log,
            0,
            accept,
        ) == Outcome::<()>::Stop(
            Stop::Ask(
                Op::Print,
                seq![
                    if accept {
                        "accepted hooks from .githooks.toml for this repository.\n"@
                    } else {
                        "declined hooks from .githooks.toml for this repository.\n"@
                    },
                ],
            ),
        ))),
        root is Some && hash is Some ==> (play_consent(windows, log, 0, accept) is Done
            ==> play_record_consent(windows, log, b, accept) is Done),
{
    reveal_strlit("no ");
    reveal_strlit(".githooks.toml");
    reveal_strlit(" in this repository\n");
    reveal_strlit("no .githooks.toml in this repository\n");
    assert("no "@ + ".githooks.toml"@ + " in this repository\n"@
        =~= "no .githooks.toml in this repository\n"@);
    reveal_strlit("accepted");
    reveal_strlit("declined");
    reveal_strlit(" hooks from ");
    reveal_strlit(" for this repository.\n");
    reveal_strlit("accepted hooks from .githooks.toml for this repository.\n");
    reveal_strlit("declined hooks from .githooks.toml for this repository.\n");
    assert("accepted"@ + " hooks from "@ + ".githooks.toml"@ + " for this repository.\n"@
        =~= "accepted hooks from .githooks.toml for this repository.\n"@);
    assert("declined"@ + " hooks from "@ + ".githooks.toml"@ + " for this repository.\n"@
        =~= "declined hooks from .githooks.toml for this repository.\n"@);
}

} // verus!
