//! What exchanges show: which requests were made, in which order.
use crate::config::HOOKS_DIR;
use crate::content::{
    or_empty, paths_in, play_blobs, play_canonical_content, play_consent_hash,
    play_githooks_dir_files, play_hash_object, play_walk, under_trust,
};
use crate::git::play_repo_root;
use crate::paths::{path_joined, path_rel};
use crate::prompt::{
    accepted_blob, added_shown, change_heading, changed_shown, covered, play_change_prompt_body,
    play_changes, play_git_diff_blob_file,
};
use crate::text::texts;
use crate::trust::{
    play_allowed_principals, play_signature_line, play_signature_status, play_ssh_verify,
    play_try_principals, sig_path, signers_path,
};
use crate::world::{asked_listing, asked_text, Exchange, Op, Outcome, Reply};
use vstd::prelude::*;

verus! {

/// The words of the exchanges of one kind, in order.
pub open spec fn words_asked(log: Seq<Exchange>, op: Op, from: int, to: int) -> Seq<Seq<Seq<char>>>
    decreases to - from,
{
    if from >= to {
        seq![]
    } else if log[from].request.op == op {
        seq![texts(log[from].request.words@)] + words_asked(log, op, from + 1, to)
    } else {
        words_asked(log, op, from + 1, to)
    }
}

/// The replies to the exchanges of one kind, in order.
pub open spec fn replies_given(log: Seq<Exchange>, op: Op, from: int, to: int) -> Seq<Reply>
    decreases to - from,
{
    if from >= to {
        seq![]
    } else if log[from].request.op == op {
        seq![log[from].reply] + replies_given(log, op, from + 1, to)
    } else {
        replies_given(log, op, from + 1, to)
    }
}

/// Whether every request was answered as it asks, and every process could be run.
pub open spec fn well_answered(log: Seq<Exchange>) -> bool {
    forall|i: int|
        0 <= i < log.len() ==> (match (#[trigger] log[i]).request.op {
            Op::Git => log[i].reply matches Reply::Ran(Ok(_)),
            Op::GitCapture => log[i].reply matches Reply::Ran(Ok(_)),
            Op::GitCaptureIn => log[i].reply matches Reply::Ran(Ok(_)),
            Op::GitFeed => log[i].reply matches Reply::Ran(Ok(_)),
            Op::SshCapture => log[i].reply matches Reply::Ran(Ok(_)),
            Op::SshFeed => log[i].reply matches Reply::Ran(Ok(_)),
            Op::Shell => log[i].reply matches Reply::Ran(Ok(_)),
            Op::ReadText => log[i].reply is Text,
            Op::EnvVar => log[i].reply is Text,
            Op::CurrentDir => log[i].reply is Text,
            Op::HearTerminal => log[i].reply is Text,
            Op::IsFile => log[i].reply is Flag,
            Op::IsDir => log[i].reply is Flag,
            Op::Exists => log[i].reply is Flag,
            Op::OpenTerminal => log[i].reply is Flag,
            Op::ListDir => log[i].reply is Listing,
            _ => log[i].reply is Done,
        })
}

/// Exchanges come one after another.
pub proof fn lemma_asked_parts(log: Seq<Exchange>, op: Op, from: int, mid: int, to: int)
    requires
        from <= mid <= to,
    ensures
        words_asked(log, op, from, to) == words_asked(log, op, from, mid) + words_asked(
            log,
            op,
            mid,
            to,
        ),
        replies_given(log, op, from, to) == replies_given(log, op, from, mid) + replies_given(
            log,
            op,
            mid,
            to,
        ),
    decreases mid - from,
{
    if from < mid {
        lemma_asked_parts(log, op, from + 1, mid, to);
        assert(words_asked(log, op, from, to) =~= words_asked(log, op, from, mid) + words_asked(
            log,
            op,
            mid,
            to,
        ));
        assert(replies_given(log, op, from, to) =~= replies_given(log, op, from, mid)
            + replies_given(log, op, mid, to));
    } else {
        assert(words_asked(log, op, from, to) =~= words_asked(log, op, from, mid) + words_asked(
            log,
            op,
            mid,
            to,
        ));
        assert(replies_given(log, op, from, to) =~= replies_given(log, op, from, mid)
            + replies_given(log, op, mid, to));
    }
}

/// Whether exchanges neither say anything nor ask for `ssh-keygen` or a shell.
pub open spec fn is_silent(log: Seq<Exchange>, from: int, to: int) -> bool {
    from <= to <= log.len() && forall|i: int|
        from <= i < to ==> (#[trigger] log[i]).request.op != Op::Print && log[i].request.op
            != Op::Report && log[i].request.op != Op::SshFeed && log[i].request.op != Op::Shell
            && log[i].request.op != Op::TellTerminal
}

/// Where no exchange is of one kind, none was asked for.
pub proof fn lemma_none_asked(log: Seq<Exchange>, op: Op, from: int, to: int)
    requires
        forall|i: int| from <= i < to ==> (#[trigger] log[i]).request.op != op,
    ensures
        words_asked(log, op, from, to) == Seq::<Seq<Seq<char>>>::empty(),
        replies_given(log, op, from, to) == Seq::<Reply>::empty(),
    decreases to - from,
{
    if from < to {
        assert(log[from].request.op != op);
        lemma_none_asked(log, op, from + 1, to);
    }
}

/// Walking directories is silent.
pub proof fn lemma_walk_silent(
    windows: bool,
    log: Seq<Exchange>,
    at: int,
    pending: Seq<Seq<char>>,
    files: Seq<Seq<char>>,
)
    requires
        0 <= at <= log.len(),
    ensures
        play_walk(windows, log, at, pending, files) matches Outcome::Done(_, to) ==> is_silent(
            log,
            at,
            to,
        ),
    decreases log.len() - at, pending.len(),
{
    if pending.len() > 0 {
        match asked_listing(log, at, pending.last()) {
            Outcome::Done((dirs, found), next) => {
                lemma_walk_silent(
                    windows,
                    log,
                    next,
                    pending.drop_last() + paths_in(windows, pending.last(), dirs),
                    files + paths_in(windows, pending.last(), found),
                );
            },
            _ => {},
        }
    }
}

/// Asking for blobs is silent.
pub proof fn lemma_blobs_silent(
    windows: bool,
    log: Seq<Exchange>,
    at: int,
    root: Seq<char>,
    files: Seq<Seq<char>>,
    exclude_trust: bool,
    i: int,
    out: Seq<(Seq<char>, Seq<char>)>,
)
    requires
        0 <= at <= log.len(),
        0 <= i,
    ensures
        play_blobs(windows, log, at, root, files, exclude_trust, i, out) matches Outcome::Done(
            _,
            to,
        ) ==> is_silent(log, at, to),
    decreases files.len() - i,
{
    if i < files.len() {
        let path = path_rel(windows, root, files[i]);
        if exclude_trust && under_trust(path) {
            lemma_blobs_silent(windows, log, at, root, files, exclude_trust, i + 1, out);
        } else {
            match play_hash_object(log, at, files[i]) {
                Outcome::Done(blob, next) => {
                    lemma_blobs_silent(
                        windows,
                        log,
                        next,
                        root,
                        files,
                        exclude_trust,
                        i + 1,
                        out.push((path, or_empty(blob))),
                    );
                },
                _ => {},
            }
        }
    }
}

/// Finding the files of the hooks is silent.
pub proof fn lemma_files_silent(windows: bool, log: Seq<Exchange>, at: int, root: Seq<char>)
    requires
        0 <= at <= log.len(),
    ensures
        play_githooks_dir_files(windows, log, at, root) matches Outcome::Done(_, to) ==> is_silent(
            log,
            at,
            to,
        ),
{
    lemma_walk_silent(windows, log, at, seq![path_joined(windows, root, HOOKS_DIR@)], seq![]);
}

/// Forming the canonical text is silent.
pub proof fn lemma_content_silent(
    windows: bool,
    log: Seq<Exchange>,
    at: int,
    root: Seq<char>,
    exclude_trust: bool,
)
    requires
        0 <= at <= log.len(),
    ensures
        play_canonical_content(windows, log, at, root, exclude_trust) matches Outcome::Done(_, to)
            ==> is_silent(log, at, to) && at < to,
{
    if play_canonical_content(windows, log, at, root, exclude_trust) is Done {
        lemma_files_silent(windows, log, at + 1, root);
        match play_githooks_dir_files(windows, log, at + 1, root) {
            Outcome::Done(files, mid) => {
                lemma_blobs_silent(windows, log, mid, root, files, exclude_trust, 0, seq![]);
            },
            _ => {},
        }
    }
}

/// Forming the consent hash is silent.
pub proof fn lemma_hash_silent(windows: bool, log: Seq<Exchange>, at: int)
    requires
        0 <= at <= log.len(),
    ensures
        play_consent_hash(windows, log, at) matches Outcome::Done(_, to) ==> is_silent(log, at, to)
            && at < to,
{
    match play_repo_root(log, at) {
        Outcome::Done(Some(root), a) => {
            if a + 1 <= log.len() {
                lemma_content_silent(windows, log, a + 1, root, false);
            }
        },
        _ => {},
    }
}

/// Whether exchanges say nothing.
pub open spec fn is_quiet(log: Seq<Exchange>, from: int, to: int) -> bool {
    from <= to <= log.len() && forall|i: int|
        from <= i < to ==> (#[trigger] log[i]).request.op != Op::Print && log[i].request.op
            != Op::Report
}

/// Asking for principals is quiet.
pub proof fn lemma_try_quiet(
    log: Seq<Exchange>,
    at: int,
    signers: Seq<char>,
    sig: Seq<char>,
    content: Seq<char>,
    list: Seq<Seq<char>>,
    i: int,
)
    requires
        0 <= at <= log.len(),
    ensures
        play_try_principals(log, at, signers, sig, content, list, i) matches Outcome::Done(_, to)
            ==> is_quiet(log, at, to),
    decreases list.len() - i,
{
    if i < list.len() {
        match play_ssh_verify(log, at, signers, list[i], sig, content) {
            Outcome::Done(None, _) => {
                lemma_try_quiet(log, at + 1, signers, sig, content, list, i + 1);
            },
            _ => {},
        }
    }
}

/// Finding out what the signature is worth is quiet.
pub proof fn lemma_signature_quiet(windows: bool, log: Seq<Exchange>, at: int, root: Seq<char>)
    requires
        0 <= at <= log.len(),
    ensures
        play_signature_status(windows, log, at, root) matches Outcome::Done(_, to) ==> is_quiet(
            log,
            at,
            to,
        ),
        play_signature_line(windows, log, at, root) matches Outcome::Done(_, to) ==> is_quiet(
            log,
            at,
            to,
        ),
{
    if play_signature_status(windows, log, at, root) is Done && at + 2 <= log.len() {
        lemma_content_silent(windows, log, at + 2, root, true);
        match play_canonical_content(windows, log, at + 2, root, true) {
            Outcome::Done(content, a) => {
                let signers = signers_path(windows, root);
                match play_allowed_principals(log, a, signers) {
                    Outcome::Done(list, b) => {
                        lemma_try_quiet(
                            log,
                            b,
                            signers,
                            sig_path(windows, root),
                            content,
                            list,
                            0,
                        );
                    },
                    _ => {},
                }
            },
            _ => {},
        }
    }
}

/// Comparing files with a manifest is quiet.
pub proof fn lemma_changes_quiet(
    windows: bool,
    log: Seq<Exchange>,
    at: int,
    root: Seq<char>,
    manifest: Seq<(Seq<char>, Seq<char>)>,
    current: Seq<Seq<char>>,
    i: int,
    out: Seq<char>,
)
    requires
        0 <= at <= log.len(),
    ensures
        play_changes(windows, log, at, root, manifest, current, i, out) matches Outcome::Done(_, to)
            ==> is_quiet(log, at, to),
    decreases current.len() - i,
{
    if i < current.len() {
        let path = path_joined(windows, root, current[i]);
        match play_hash_object(log, at, path) {
            Outcome::Done(cur, a) => match accepted_blob(manifest, current[i]) {
                Some(old) => {
                    if old == or_empty(cur) {
                        lemma_changes_quiet(windows, log, a, root, manifest, current, i + 1, out);
                    } else {
                        match play_git_diff_blob_file(log, a, old, path) {
                            Outcome::Done(diff, b) => {
                                let more = out + changed_shown(current[i], diff);
                                lemma_changes_quiet(
                                    windows,
                                    log,
                                    b,
                                    root,
                                    manifest,
                                    current,
                                    i + 1,
                                    more,
                                );
                            },
                            _ => {},
                        }
                    }
                },
                None => match asked_text(log, a, Op::ReadText, seq![path]) {
                    Outcome::Done(text, b) => {
                        let more = out + added_shown(current[i], text);
                        lemma_changes_quiet(windows, log, b, root, manifest, current, i + 1, more);
                    },
                    _ => {},
                },
            },
            _ => {},
        }
    }
}

/// Forming the body of the prompt about changed hooks is quiet.
pub proof fn lemma_change_body_quiet(
    windows: bool,
    log: Seq<Exchange>,
    at: int,
    root: Seq<char>,
    manifest: Seq<(Seq<char>, Seq<char>)>,
)
    requires
        0 <= at <= log.len(),
    ensures
        play_change_prompt_body(windows, log, at, root, manifest) matches Outcome::Done(_, to)
            ==> is_quiet(log, at, to),
{
    lemma_files_silent(windows, log, at, root);
    match play_githooks_dir_files(windows, log, at, root) {
        Outcome::Done(files, a) => {
            lemma_changes_quiet(
                windows,
                log,
                a,
                root,
                manifest,
                covered(windows, root, files),
                0,
                change_heading(),
            );
        },
        _ => {},
    }
}

} // verus!
