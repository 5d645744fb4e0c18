//! What `status`, `diff`, `accept` and `decline` say.
use crate::commands::{
    consent_notice, no_config_notice, play_diff, play_show_changes, play_show_signature,
    play_status, play_status_end, state_shown,
};
use crate::config::{config_shown, CONFIG_FILE, HOOKS_DIR};
use crate::consent::{decision, play_consent_state, play_read_manifest, Decision};
use crate::content::{play_consent_hash, play_githooks_dir_files};
use crate::deciding::law_decision;
use crate::document::toml_parsed;
use crate::git::{play_repo_root, play_say};
use crate::paths::{path_joined, path_rel};
use crate::prompt::{names_shown, play_change_prompt_body, rels, scripts_shown};
use crate::text::texts;
use crate::tracing::{
    is_quiet, lemma_asked_parts, lemma_change_body_quiet, lemma_files_silent, lemma_hash_silent,
    lemma_none_asked, lemma_signature_quiet, words_asked,
};
use crate::trust::play_signature_line;
use crate::world::{asked_text, Exchange, Op, Outcome};
use vstd::prelude::*;

verus! {

/// The status says that content is accepted exactly where `accept:` with its hash is
/// recorded, and declined where `decline:` with its hash is; where nothing is recorded, that
/// nothing is decided; and otherwise that the content changed. It names the hash.
pub proof fn law_state_shown(state: Option<Seq<char>>, hash: Seq<char>)
    ensures
        state == Some("accept:"@ + hash) ==> state_shown(state, Some(hash))
            == "\nstatus: accepted\ncontent hash: "@ + hash + "\n"@,
        state == Some("decline:"@ + hash) ==> state_shown(state, Some(hash))
            == "\nstatus: declined\ncontent hash: "@ + hash + "\n"@,
        state is None ==> state_shown(state, Some(hash))
            == "\nstatus: no decision yet — will prompt on first hook\ncontent hash: "@ + hash
            + "\n"@,
        state is Some && state != Some("accept:"@ + hash) && state != Some("decline:"@ + hash)
            ==> state_shown(state, Some(hash))
            == "\nstatus: config or .githooks/ changed since your last decision — will re-prompt\ncontent hash: "@
            + hash + "\n"@,
{
    law_decision(state, Some(hash));
    reveal_strlit("\nstatus: ");
    reveal_strlit("\n");
    reveal_strlit("content hash: ");
    reveal_strlit("accepted");
    reveal_strlit("declined");
    reveal_strlit("no decision yet — will prompt on first hook");
    reveal_strlit("config or .githooks/ changed since your last decision — will re-prompt");
    reveal_strlit("\nstatus: accepted\ncontent hash: ");
    reveal_strlit("\nstatus: declined\ncontent hash: ");
    reveal_strlit("\nstatus: no decision yet — will prompt on first hook\ncontent hash: ");
    reveal_strlit(
        "\nstatus: config or .githooks/ changed since your last decision — will re-prompt\ncontent hash: ",
    );
    let shown = state_shown(state, Some(hash));
    match decision(state, Some(hash)) {
        Decision::Accepted => {
            assert(shown =~= "\nstatus: accepted\ncontent hash: "@ + hash + "\n"@);
        },
        Decision::Declined => {
            assert(shown =~= "\nstatus: declined\ncontent hash: "@ + hash + "\n"@);
        },
        Decision::Open => {
            assert(shown
                =~= "\nstatus: no decision yet — will prompt on first hook\ncontent hash: "@ + hash
                + "\n"@);
        },
        Decision::Changed => {
            assert(shown
                =~= "\nstatus: config or .githooks/ changed since your last decision — will re-prompt\ncontent hash: "@
                + hash + "\n"@);
        },
    }
    reveal_strlit("accept:");
    reveal_strlit("decline:");
    assert(("accept:"@ + hash)[0] == 'a');
    assert(("decline:"@ + hash)[0] == 'd');
}

/// How scripts are listed: under a heading, if there are any.
pub proof fn law_scripts_shown(names: Seq<Seq<char>>)
    ensures
        names.len() == 0 ==> scripts_shown(names) == Seq::<char>::empty(),
        names.len() > 0 ==> scripts_shown(names) == "\ncovered scripts under .githooks/:\n"@
            + names_shown(names),
{
    reveal_strlit("\ncovered scripts under ");
    reveal_strlit(".githooks");
    reveal_strlit("/:\n");
    reveal_strlit("\ncovered scripts under .githooks/:\n");
    assert("\ncovered scripts under "@ + HOOKS_DIR@ + "/:\n"@
        =~= "\ncovered scripts under .githooks/:\n"@);
}

/// One exchange of a kind, with quiet ones before it.
proof fn lemma_said_next(log: Seq<Exchange>, from: int, at: int)
    requires
        0 <= from,
        is_quiet(log, from, at),
        at < log.len(),
        log[at].request.op == Op::Print,
    ensures
        words_asked(log, Op::Print, from, at + 1) == seq![texts(log[at].request.words@)],
{
    lemma_asked_parts(log, Op::Print, from, at, at + 1);
    lemma_none_asked(log, Op::Print, from, at);
    reveal_with_fuel(words_asked, 2);
    assert(words_asked(log, Op::Print, from, at + 1) =~= seq![texts(log[at].request.words@)]);
}

/// What the end of `status` says: what is decided, and what the signature is worth.
#[verifier::rlimit(40)]
proof fn lemma_status_end(windows: bool, log: Seq<Exchange>, at: int, root: Seq<char>)
    requires
        0 <= at <= log.len(),
        play_status_end(windows, log, at, root) is Done,
    ensures
        ({
            let to = play_status_end(windows, log, at, root)->Done_1;
            play_consent_state(log, at) matches Outcome::Done(state, d) && play_consent_hash(
                windows,
                log,
                d,
            ) matches Outcome::Done(hash, e) && play_signature_line(windows, log, e + 1, root)
                matches Outcome::Done(line, f) && at <= to && words_asked(log, Op::Print, at, to)
                == seq![seq![state_shown(state, hash)], seq![line + "\n"@]]
        }),
{
    let to = play_status_end(windows, log, at, root)->Done_1;
    lemma_hash_silent(windows, log, at + 1);
    let e = play_consent_hash(windows, log, at + 1)->Done_1;
    lemma_said_next(log, at, e);
    lemma_signature_quiet(windows, log, e + 1, root);
    let f = play_signature_line(windows, log, e + 1, root)->Done_1;
    lemma_said_next(log, e + 1, f);
    lemma_asked_parts(log, Op::Print, at, e + 1, to);
    let state = play_consent_state(log, at)->Done_0;
    let hash = play_consent_hash(windows, log, at + 1)->Done_0;
    let line = play_signature_line(windows, log, e + 1, root)->Done_0;
    assert(words_asked(log, Op::Print, at, to) =~= seq![
        seq![state_shown(state, hash)],
        seq![line + "\n"@],
    ]);
}

/// What is said where there is no configuration.
proof fn lemma_no_config()
    ensures
        no_config_notice() == "no .githooks.toml in this repository\n"@,
{
    reveal_strlit("no ");
    reveal_strlit(".githooks.toml");
    reveal_strlit(" in this repository\n");
    reveal_strlit("no .githooks.toml in this repository\n");
    assert(no_config_notice() =~= "no .githooks.toml in this repository\n"@);
}

/// Whether `status` said, from `at` on, what there is to say of a repository that has a
/// configuration: the configuration, the scripts, what is decided, and what the signature
/// is worth, each of them once and in this order.
#[verifier::opaque]
pub open spec fn says_status(
    windows: bool,
    log: Seq<Exchange>,
    at: int,
    root: Seq<char>,
    raw: Seq<char>,
    to: int,
) -> bool {
    play_githooks_dir_files(windows, log, at + 1, root) matches Outcome::Done(files, c)
        && play_consent_state(log, c + 1) matches Outcome::Done(state, d) && play_consent_hash(
        windows,
        log,
        d,
    ) matches Outcome::Done(hash, e) && play_signature_line(windows, log, e + 1, root)
        matches Outcome::Done(line, f) && words_asked(log, Op::Print, at, to) == seq![
        seq![config_shown(toml_parsed(raw), raw)],
        seq![scripts_shown(Seq::new(files.len(), |i: int| path_rel(windows, root, files[i])))],
        seq![state_shown(state, hash)],
        seq![line + "\n"@],
    ]
}

/// What `status` says of a repository that has a configuration.
#[verifier::rlimit(40)]
proof fn lemma_status_said(
    windows: bool,
    log: Seq<Exchange>,
    at: int,
    root: Seq<char>,
    raw: Seq<char>,
    c: int,
    to: int,
)
    requires
        0 <= at < log.len(),
        log[at].request.op == Op::Print,
        texts(log[at].request.words@) == seq![config_shown(toml_parsed(raw), raw)],
        play_githooks_dir_files(windows, log, at + 1, root) matches Outcome::Done(files, end) && end
            == c && c < log.len() && log[c].request.op == Op::Print && texts(
            log[c].request.words@,
        ) == seq![scripts_shown(rels(windows, root, files))],
        play_status_end(windows, log, c + 1, root) matches Outcome::Done(_, end) && end == to,
    ensures
        says_status(windows, log, at, root, raw, to),
{
    reveal(says_status);
    lemma_said_next(log, at, at);
    lemma_files_silent(windows, log, at + 1, root);
    let files = play_githooks_dir_files(windows, log, at + 1, root)->Done_0;
    assert(rels(windows, root, files) =~= Seq::new(
        files.len(),
        |i: int| path_rel(windows, root, files[i]),
    ));
    lemma_said_next(log, at + 1, c);
    lemma_status_end(windows, log, c + 1, root);
    lemma_asked_parts(log, Op::Print, at, at + 1, to);
    lemma_asked_parts(log, Op::Print, at + 1, c + 1, to);
    let said = words_asked(log, Op::Print, at, to);
    assert(said =~= seq![said[0], said[1], said[2], said[3]]);
}

/// What `status` says, and nothing else. Without a configuration that is only that there is
/// none.
#[verifier::rlimit(40)]
pub proof fn law_status_says(windows: bool, log: Seq<Exchange>, at: int, root: Seq<char>)
    requires
        0 <= at <= log.len(),
        play_repo_root(log, at) == Outcome::Done(Some(root), at + 1),
        play_status(windows, log, at) is Done,
    ensures
        ({
            let path = path_joined(windows, root, ".githooks.toml"@);
            let to = play_status(windows, log, at)->Done_1;
            match asked_text(log, at + 1, Op::ReadText, seq![path]) {
                Outcome::Done(None, _) => words_asked(log, Op::Print, at, to) == seq![
                    seq!["no .githooks.toml in this repository\n"@],
                ],
                Outcome::Done(Some(raw), b) => says_status(windows, log, b, root, raw, to)
                    && words_asked(log, Op::Print, at, b).len() == 0,
                _ => false,
            }
        }),
{
    lemma_no_config();
    let path = path_joined(windows, root, CONFIG_FILE@);
    let to = play_status(windows, log, at)->Done_1;
    match asked_text(log, at + 1, Op::ReadText, seq![path]) {
        Outcome::Done(None, _) => {
            lemma_said_next(log, at, at + 2);
        },
        Outcome::Done(Some(raw), b) => {
            lemma_none_asked(log, Op::Print, at, b);
            let c = play_githooks_dir_files(windows, log, b + 1, root)->Done_1;
            lemma_files_silent(windows, log, b + 1, root);
            lemma_status_said(windows, log, b, root, raw, c, to);
        },
        _ => {},
    }
}

/// What is said of changes is said last, with quiet before it.
#[verifier::rlimit(40)]
proof fn lemma_changes_said(
    windows: bool,
    log: Seq<Exchange>,
    at: int,
    root: Seq<char>,
    manifest: Seq<(Seq<char>, Seq<char>)>,
)
    requires
        0 <= at <= log.len(),
        play_show_changes(windows, log, at, root, manifest) is Done,
    ensures
        ({
            let d = play_show_changes(windows, log, at, root, manifest)->Done_1;
            let w = texts(log[d - 1].request.words@);
            &&& at < d <= log.len()
            &&& is_quiet(log, at, d - 1)
            &&& log[d - 1].request.op == Op::Print
            &&& w == seq![w[0]]
            &&& says_of_changes(windows, log, at, root, manifest, w[0], d)
        }),
{
    reveal(says_of_changes);
    if manifest.len() > 0 {
        lemma_hash_silent(windows, log, at + 1);
        let e = play_consent_hash(windows, log, at + 1)->Done_1;
        let h = play_consent_hash(windows, log, at + 1)->Done_0->Some_0;
        let state = play_consent_state(log, at)->Done_0;
        law_decision(state, Some(h));
        if state != Some("accept:"@ + h) {
            lemma_change_body_quiet(windows, log, e, root, manifest);
        }
    }
}

/// Whether `diff` said what there is to say of the changes, and then what the signature is
/// worth.
#[verifier::opaque]
pub open spec fn says_diff(
    windows: bool,
    log: Seq<Exchange>,
    from: int,
    at: int,
    root: Seq<char>,
    manifest: Seq<(Seq<char>, Seq<char>)>,
    to: int,
) -> bool {
    exists|said: Seq<char>, d: int|
        #![trigger says_of_changes(windows, log, at, root, manifest, said, d)]
        {
            &&& says_of_changes(windows, log, at, root, manifest, said, d)
            &&& play_signature_line(windows, log, d, root) matches Outcome::Done(line, _)
                && words_asked(log, Op::Print, from, to) == seq![seq![said], seq![line + "\n"@]]
        }
}

/// What is said of changes, and of the signature.
#[verifier::rlimit(40)]
proof fn lemma_diff_end(
    windows: bool,
    log: Seq<Exchange>,
    from: int,
    at: int,
    root: Seq<char>,
    manifest: Seq<(Seq<char>, Seq<char>)>,
    to: int,
)
    requires
        0 <= from <= at,
        is_quiet(log, from, at),
        play_show_changes(windows, log, at, root, manifest) is Done,
        play_show_signature(
            windows,
            log,
            play_show_changes(windows, log, at, root, manifest)->Done_1,
            root,
        ) matches Outcome::Done(_, end) && end == to,
    ensures
        says_diff(windows, log, from, at, root, manifest, to),
{
    let d = play_show_changes(windows, log, at, root, manifest)->Done_1;
    lemma_changes_said(windows, log, at, root, manifest);
    let said = texts(log[d - 1].request.words@)[0];
    lemma_said_next(log, from, d - 1);
    lemma_signature_quiet(windows, log, d, root);
    let f = play_signature_line(windows, log, d, root)->Done_1;
    let line = play_signature_line(windows, log, d, root)->Done_0;
    lemma_said_next(log, d, f);
    lemma_asked_parts(log, Op::Print, from, d, to);
    assert(words_asked(log, Op::Print, from, to) =~= seq![seq![said], seq![line + "\n"@]]);
    reveal(says_diff);
    assert(says_of_changes(windows, log, at, root, manifest, said, d));
}

/// What `diff` says: what changed since the last acceptance, and what the signature is
/// worth. Without a configuration it says only that there is none.
#[verifier::rlimit(40)]
pub proof fn law_diff_says(windows: bool, log: Seq<Exchange>, at: int, root: Seq<char>)
    requires
        0 <= at <= log.len(),
        play_repo_root(log, at) == Outcome::Done(Some(root), at + 1),
        play_diff(windows, log, at) is Done,
    ensures
        ({
            let to = play_diff(windows, log, at)->Done_1;
            match play_consent_hash(windows, log, at + 1) {
                Outcome::Done(None, _) => words_asked(log, Op::Print, at, to) == seq![
                    seq!["no .githooks.toml in this repository\n"@],
                ],
                Outcome::Done(Some(_), b) => match play_read_manifest(log, b) {
                    Outcome::Done(manifest, c) => says_diff(
                        windows,
                        log,
                        at,
                        c,
                        root,
                        manifest,
                        to,
                    ),
                    _ => false,
                },
                _ => false,
            }
        }),
{
    lemma_no_config();
    let to = play_diff(windows, log, at)->Done_1;
    lemma_hash_silent(windows, log, at + 1);
    let found = play_consent_hash(windows, log, at + 1)->Done_0;
    let b = play_consent_hash(windows, log, at + 1)->Done_1;
    if found is None {
        assert(play_say(log, b, no_config_notice()) == play_diff(windows, log, at));
        lemma_said_next(log, at, b);
    } else {
        let manifest = play_read_manifest(log, b)->Done_0;
        let c = play_read_manifest(log, b)->Done_1;
        let changes = play_show_changes(windows, log, c, root, manifest);
        assert(changes is Done);
        assert(play_show_signature(windows, log, changes->Done_1, root) == play_diff(
            windows,
            log,
            at,
        ));
        assert(c == b + 1);
        lemma_diff_end(windows, log, at, c, root, manifest, to);
    }
}

/// Whether a text is what there is to say of the changes since a manifest was written:
/// that nothing was accepted, that what is there is what was accepted, or the changes.
#[verifier::opaque]
pub open spec fn says_of_changes(
    windows: bool,
    log: Seq<Exchange>,
    at: int,
    root: Seq<char>,
    manifest: Seq<(Seq<char>, Seq<char>)>,
    said: Seq<char>,
    to: int,
) -> bool {
    if manifest.len() == 0 {
        said == "nothing accepted yet.\n"@ && to == at + 1
    } else {
        play_consent_state(log, at) matches Outcome::Done(state, b) && play_consent_hash(
            windows,
            log,
            b,
        ) matches Outcome::Done(Some(hash), c) && (if state == Some("accept:"@ + hash) {
            said == "unchanged since your last accept.\n"@ && to == c + 1
        } else {
            play_change_prompt_body(windows, log, c, root, manifest) == Outcome::Done(said, to - 1)
        })
    }
}

/// What `accept` and `decline` say once the decision is recorded.
pub proof fn law_consent_says(accept: bool)
    ensures
        consent_notice(accept) == (if accept {
            "accepted hooks from .githooks.toml for this repository.\n"@
        } else {
            "declined hooks from .githooks.toml for this repository.\n"@
        }),
{
    reveal_strlit("accepted");
    reveal_strlit("declined");
    reveal_strlit(" hooks from ");
    reveal_strlit(".githooks.toml");
    reveal_strlit(" for this repository.\n");
    reveal_strlit("accepted hooks from .githooks.toml for this repository.\n");
    reveal_strlit("declined hooks from .githooks.toml for this repository.\n");
    if accept {
        assert(consent_notice(accept)
            =~= "accepted hooks from .githooks.toml for this repository.\n"@);
    } else {
        assert(consent_notice(accept)
            =~= "declined hooks from .githooks.toml for this repository.\n"@);
    }
}

} // verus!
