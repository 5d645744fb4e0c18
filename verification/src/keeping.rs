//! What holds over several calls of the program, in a world that keeps what it is
//! told: files, directories and the local configuration of `git`.
use crate::commands::{play_add, play_copy_shim, play_copy_shims, SHIM_MARKER};
use crate::config::{known_hooks, lemma_hooks_differ, with_command, CONFIG_FILE};
use crate::consent::{
    decision, law_decision_holds, law_decision_read_back, law_manifest_read_back, manifest_addition,
    manifest_line, manifest_lines, manifest_removal, play_consent_state, play_manifest_from,
    play_read_manifest, play_record_consent, play_store_object, state_query, state_update, verdict,
    Decision,
};
use crate::content::{
    canonical_text, law_canonical_text_tells, one_line, or_empty, paths_in, play_blobs,
    play_canonical_content, play_consent_hash, play_githooks_dir_files, play_hash_object, play_walk,
    under_trust,
};
use crate::document::{entries_of, entries_ordered, entry, prints_well, toml_printed, Entries};
use crate::git::{play_git, play_git_capture, play_home, play_need_root, play_repo_root, trust_path};
use crate::paths::{is_name, lemma_joined_differs, path_joined, path_rel};
use crate::policy::{
    declines, keys_trusted, law_not_trusted_after_untrust, law_trust_keeps_the_rest, with_key,
    without_key,
};
use crate::signers::{good_key, line_principals, not_empty, principals};
use crate::signing::{
    keys_other_than, keys_removal, law_not_trusted_after_untrust_locally, law_signer_gets_a_line,
    line_added, line_known, other_than, play_add_keys, play_list_signer, play_make_signature,
    play_trust_cmd, play_trust_globally, play_untrust_cmd, play_untrust_locally, play_write_policy,
    policy_place, sign_request, trust_args,
};
use crate::text::{
    before, before_space, concat, holds, is_space, joined, law_lines_read_back, lemma_before,
    lemma_before_space, lemma_trimmed_line, lines_of, maybe, split_at_char, texts, trimmed,
    trimmed_start, words_of,
};
use crate::tree::lies_under;
use crate::trust::{
    key_addition, play_add_local_trusted_key, play_allowed_principals, play_key_trusted,
    play_local_trusted_keys, play_policy, play_signature_status, play_ssh_verify,
    play_try_principals, sig_path, signers_path, verify_request, Signed,
};
use crate::world::{
    asked_listing, captured, said, succeeded, Exchange, Finished, Op, Outcome, Reply,
};
use vstd::prelude::*;

verus! {

// ---------------------------------------------------------------------------
// A world that keeps what it is told.
// ---------------------------------------------------------------------------

/// What the world keeps.
pub struct Kept {
    /// The files, with their texts.
    pub files: Map<Seq<char>, Seq<char>>,
    /// The directories.
    pub dirs: Set<Seq<char>>,
    /// The local configuration of `git`: the values of each key.
    pub config: Map<Seq<char>, Seq<Seq<char>>>,
    /// The environment variables.
    pub env: Map<Seq<char>, Seq<char>>,
    /// The hash that `git` gives a text.
    pub hash: spec_fn(Seq<char>) -> Seq<char>,
    /// The files that may be run.
    pub executable: Set<Seq<char>>,
    /// The configuration of `git` for all repositories: the value of each key.
    pub global: Map<Seq<char>, Seq<char>>,
    /// Whether paths are those of Windows.
    pub windows: bool,
}

/// The text of a file, if there is one.
pub open spec fn file_at(k: Kept, path: Seq<char>) -> Option<Seq<char>> {
    if k.files.contains_key(path) {
        Some(k.files[path])
    } else {
        None
    }
}

/// The value of an environment variable, if it is set.
pub open spec fn variable(k: Kept, name: Seq<char>) -> Option<Seq<char>> {
    if k.env.contains_key(name) {
        Some(k.env[name])
    } else {
        None
    }
}

/// The values of a key.
pub open spec fn values(
    config: Map<Seq<char>, Seq<Seq<char>>>,
    key: Seq<char>,
) -> Seq<Seq<char>> {
    if config.contains_key(key) {
        config[key]
    } else {
        seq![]
    }
}

/// Whether the arguments of `git` are about its local configuration.
pub open spec fn about_config(w: Seq<Seq<char>>) -> bool {
    w.len() > 2 && w[0] == "config"@ && w[1] == "--local"@
}

/// Whether `git` ended successfully.
pub open spec fn went_well(reply: Reply) -> bool {
    reply matches Reply::Ran(Ok(f)) && succeeded(f)
}

/// The local configuration after `git` was run. Taking out all values of a key fails only
/// where there are none, so that there are none afterwards, whatever `git` replied.
pub open spec fn config_after(
    config: Map<Seq<char>, Seq<Seq<char>>>,
    w: Seq<Seq<char>>,
    reply: Reply,
) -> Map<Seq<char>, Seq<Seq<char>>> {
    if !about_config(w) || w.len() == 3 || w[2] == "--get-all"@ {
        config
    } else if w.len() == 4 && w[2] == "--unset-all"@ {
        config.insert(w[3], seq![])
    } else if !went_well(reply) {
        config
    } else if w.len() == 5 && w[2] == "--add"@ {
        config.insert(w[3], values(config, w[3]).push(w[4]))
    } else {
        config.insert(w[2], seq![w[3]])
    }
}

/// The configuration for all repositories after `git` was run.
pub open spec fn global_after(
    global: Map<Seq<char>, Seq<char>>,
    w: Seq<Seq<char>>,
    reply: Reply,
) -> Map<Seq<char>, Seq<char>> {
    if w.len() == 4 && w[0] == "config"@ && w[1] == "--global"@ && went_well(reply) {
        if w[2] == "--unset"@ {
            global.remove(w[3])
        } else {
            global.insert(w[2], w[3])
        }
    } else {
        global
    }
}

/// The directories once one is created, with those that it lies in.
pub open spec fn with_dirs(k: Kept, dir: Seq<char>) -> Set<Seq<char>> {
    Set::new(
        |path: Seq<char>|
            k.dirs.contains(path) || path == dir || lies_under(k.windows, path, dir),
    )
}

/// What the world keeps after an exchange. A copy may be run where the file may that it
/// was made of. A directory that is removed is gone with all that lies in it. Of a command
/// of a hook, which may do anything, nothing is said.
pub open spec fn kept_after(k: Kept, e: Exchange) -> Kept {
    let w = texts(e.request.words@);
    match e.request.op {
        Op::WriteText => Kept { files: k.files.insert(w[0], w[1]), ..k },
        Op::AppendText => Kept {
            files: k.files.insert(w[0], or_empty(file_at(k, w[0])) + w[1]),
            ..k
        },
        Op::CopyFile => Kept {
            files: k.files.insert(w[1], or_empty(file_at(k, w[0]))),
            executable: if k.executable.contains(w[0]) {
                k.executable.insert(w[1])
            } else {
                k.executable.remove(w[1])
            },
            ..k
        },
        Op::MakeExecutable => Kept { executable: k.executable.insert(w[0]), ..k },
        Op::CreateDirs => Kept { dirs: with_dirs(k, w[0]), ..k },
        Op::RemoveDirs => Kept {
            files: Map::new(
                |path: Seq<char>|
                    k.files.contains_key(path) && !lies_under(k.windows, w[0], path),
                |path: Seq<char>| k.files[path],
            ),
            dirs: Set::new(
                |path: Seq<char>|
                    k.dirs.contains(path) && path != w[0] && !lies_under(k.windows, w[0], path),
            ),
            ..k
        },
        Op::Git => Kept {
            config: config_after(k.config, w, e.reply),
            global: global_after(k.global, w, e.reply),
            ..k
        },
        Op::GitCapture => Kept { config: config_after(k.config, w, e.reply), ..k },
        _ => k,
    }
}

/// Whether `git` wrote one line, or failed where there was none to write.
pub open spec fn wrote_line(reply: Reply, line: Option<Seq<char>>) -> bool {
    reply matches Reply::Ran(Ok(f)) && (match line {
        Some(s) => succeeded(f) && said(f) == s + "\n"@,
        None => !succeeded(f),
    })
}

/// Whether `git` listed values, one per line, or failed where there were none.
pub open spec fn wrote_values(reply: Reply, list: Seq<Seq<char>>) -> bool {
    reply matches Reply::Ran(Ok(f)) && (if list.len() > 0 {
        succeeded(f) && said(f) == joined(list, "\n"@) + "\n"@
    } else {
        !succeeded(f)
    })
}

/// The hash of a file, if there is one.
pub open spec fn hash_at(k: Kept, path: Seq<char>) -> Option<Seq<char>> {
    match file_at(k, path) {
        Some(text) => Some((k.hash)(text)),
        None => None,
    }
}

/// The value of a key: the last one.
pub open spec fn last_value(
    config: Map<Seq<char>, Seq<Seq<char>>>,
    key: Seq<char>,
) -> Option<Seq<char>> {
    if values(config, key).len() > 0 {
        Some(values(config, key).last())
    } else {
        None
    }
}

/// Whether lists of names are those of the directories and of the files in a directory,
/// each once.
pub open spec fn lists(
    k: Kept,
    dir: Seq<char>,
    dirs: Seq<Seq<char>>,
    files: Seq<Seq<char>>,
) -> bool {
    &&& dirs.no_duplicates() && files.no_duplicates()
    &&& forall|name: Seq<char>| #[trigger]
        dirs.contains(name) <==> is_name(k.windows, name) && k.dirs.contains(
            path_joined(k.windows, dir, name),
        )
    &&& forall|name: Seq<char>| #[trigger]
        files.contains(name) <==> is_name(k.windows, name) && k.files.contains_key(
            path_joined(k.windows, dir, name),
        )
}

/// Whether a reply tells what the world keeps, where the request is about that.
pub open spec fn tells(k: Kept, e: Exchange) -> bool {
    let w = texts(e.request.words@);
    match e.request.op {
        Op::ReadText => e.reply matches Reply::Text(t) && maybe(t) == file_at(k, w[0]),
        Op::IsFile => e.reply matches Reply::Flag(b) && b == k.files.contains_key(w[0]),
        Op::IsDir => e.reply matches Reply::Flag(b) && b == k.dirs.contains(w[0]),
        Op::Exists => e.reply matches Reply::Flag(b) && b == (k.files.contains_key(w[0])
            || k.dirs.contains(w[0])),
        Op::ListDir => e.reply matches Reply::Listing(d, f) && lists(
            k,
            w[0],
            texts(d@),
            texts(f@),
        ),
        Op::EnvVar => e.reply matches Reply::Text(t) && maybe(t) == variable(k, w[0]),
        Op::GitFeed => e.reply matches Reply::Ran(Ok(f)) && said(f) == (k.hash)(w[0]) + "\n"@,
        Op::GitCapture => {
            &&& w.len() > 1 && w[0] == "hash-object"@ ==> wrote_line(e.reply, hash_at(k, w.last()))
            &&& about_config(w) && w.len() == 3 ==> wrote_line(e.reply, last_value(k.config, w[2]))
            &&& about_config(w) && w.len() == 4 && w[2] == "--get-all"@ ==> wrote_values(
                e.reply,
                values(k.config, w[3]),
            )
        },
        _ => true,
    }
}

/// What the world keeps once the exchanges up to `to` are through.
pub open spec fn kept_at(k: Kept, log: Seq<Exchange>, from: int, to: int) -> Kept
    decreases to - from,
{
    if from >= to {
        k
    } else {
        kept_at(kept_after(k, log[from]), log, from + 1, to)
    }
}

/// Whether all replies from one exchange to another tell what the world keeps.
pub open spec fn honest(k: Kept, log: Seq<Exchange>, from: int, to: int) -> bool
    decreases to - from,
{
    from >= to || tells(k, log[from]) && honest(kept_after(k, log[from]), log, from + 1, to)
}

/// Exchanges come one after another.
pub proof fn lemma_parts(k: Kept, log: Seq<Exchange>, from: int, mid: int, to: int)
    requires
        from <= mid <= to,
    ensures
        honest(k, log, from, to) ==> honest(k, log, from, mid) && honest(
            kept_at(k, log, from, mid),
            log,
            mid,
            to,
        ),
        kept_at(k, log, from, to) == kept_at(kept_at(k, log, from, mid), log, mid, to),
    decreases mid - from,
{
    if from < mid {
        lemma_parts(kept_after(k, log[from]), log, from + 1, mid, to);
    }
}

// ---------------------------------------------------------------------------
// Looking changes nothing.
// ---------------------------------------------------------------------------

/// Whether an exchange leaves everything as it is, and runs no command of a hook.
pub open spec fn idle(e: Exchange) -> bool {
    let w = texts(e.request.words@);
    match e.request.op {
        Op::WriteText => false,
        Op::AppendText => false,
        Op::CopyFile => false,
        Op::MakeExecutable => false,
        Op::CreateDirs => false,
        Op::RemoveDirs => false,
        Op::Git => false,
        Op::Shell => false,
        Op::GitCapture => !about_config(w) || w.len() == 3 || w[2] == "--get-all"@,
        _ => true,
    }
}

/// Whether all exchanges in a range are there and leave everything as it is.
pub open spec fn idles(log: Seq<Exchange>, from: int, to: int) -> bool {
    from <= to <= log.len() && forall|i: int| from <= i < to ==> idle(#[trigger] log[i])
}

/// Where exchanges leave everything as it is, the replies all tell the same.
pub proof fn lemma_idles(k: Kept, log: Seq<Exchange>, from: int, to: int)
    requires
        0 <= from,
        idles(log, from, to),
    ensures
        kept_at(k, log, from, to) == k,
        honest(k, log, from, to) ==> forall|i: int| from <= i < to ==> tells(k, #[trigger] log[i]),
    decreases to - from,
{
    if from < to {
        assert(idle(log[from]));
        assert(kept_after(k, log[from]) == k);
        lemma_idles(k, log, from + 1, to);
    }
}

/// Walking directories leaves everything as it is.
pub proof fn lemma_walk_idles(
    windows: bool,
    log: Seq<Exchange>,
    at: int,
    pending: Seq<Seq<char>>,
    files: Seq<Seq<char>>,
)
    requires
        0 <= at <= log.len(),
    ensures
        play_walk(windows, log, at, pending, files) matches Outcome::Done(_, to) ==> idles(
            log,
            at,
            to,
        ),
    decreases log.len() - at, pending.len(),
{
    if pending.len() > 0 {
        match asked_listing(log, at, pending.last()) {
            Outcome::Done((dirs, found), next) => {
                lemma_walk_idles(
                    windows,
                    log,
                    next,
                    pending.drop_last() + paths_in(windows, pending.last(), dirs),
                    files + paths_in(windows, pending.last(), found),
                );
            },
            _ => {},
        }
    }
}

// ---------------------------------------------------------------------------
// What consent covers.
// ---------------------------------------------------------------------------

/// The files that are covered, from the `i`-th on: their names, seen from `root`,
/// and their texts.
pub open spec fn covered_from(
    windows: bool,
    k: Kept,
    root: Seq<char>,
    files: Seq<Seq<char>>,
    exclude_trust: bool,
    i: int,
) -> Seq<(Seq<char>, Seq<char>)>
    decreases files.len() - i,
{
    if i >= files.len() {
        seq![]
    } else {
        let path = path_rel(windows, root, files[i]);
        let rest = covered_from(windows, k, root, files, exclude_trust, i + 1);
        if exclude_trust && under_trust(path) {
            rest
        } else {
            seq![(path, k.files[files[i]])] + rest
        }
    }
}

/// All that is covered: the configuration, and the files under the directory of
/// hook scripts, or those of them that do not belong to the signature.
pub open spec fn covered(
    windows: bool,
    k: Kept,
    root: Seq<char>,
    files: Seq<Seq<char>>,
    exclude_trust: bool,
) -> (Option<Seq<char>>, Seq<(Seq<char>, Seq<char>)>) {
    (
        file_at(k, path_joined(windows, root, CONFIG_FILE@)),
        covered_from(windows, k, root, files, exclude_trust, 0),
    )
}

/// Whether files that were found are there.
pub open spec fn all_there(k: Kept, files: Seq<Seq<char>>) -> bool {
    forall|j: int| 0 <= j < files.len() ==> k.files.contains_key(#[trigger] files[j])
}

/// Files with the hashes of their texts.
pub open spec fn hashed(
    hash: spec_fn(Seq<char>) -> Seq<char>,
    list: Seq<(Seq<char>, Seq<char>)>,
) -> Seq<(Seq<char>, Seq<char>)> {
    Seq::new(list.len(), |i: int| (list[i].0, hash(list[i].1)))
}

/// The canonical text of what is covered.
pub open spec fn text_covered(
    hash: spec_fn(Seq<char>) -> Seq<char>,
    what: (Option<Seq<char>>, Seq<(Seq<char>, Seq<char>)>),
) -> Seq<char> {
    canonical_text(
        match what.0 {
            Some(text) => Some(hash(text)),
            None => None,
        },
        hashed(hash, what.1),
    )
}

/// Whether hashes are as those of `git`: different for different texts, and words
/// of which none holds a colon.
pub open spec fn good_hash(hash: spec_fn(Seq<char>) -> Seq<char>) -> bool {
    &&& forall|a: Seq<char>, b: Seq<char>| #[trigger] hash(a) == #[trigger] hash(b) ==> a == b
    &&& forall|a: Seq<char>| is_word(#[trigger] hash(a)) && !hash(a).contains(':')
}

/// Whether a text is not empty and holds no white space.
pub open spec fn is_word(s: Seq<char>) -> bool {
    s.len() > 0 && forall|i: int| 0 <= i < s.len() ==> !is_space(#[trigger] s[i])
}

/// A word comes back from `git` as it is.
pub proof fn lemma_word_captured(f: Finished, s: Seq<char>)
    requires
        is_word(s),
        succeeded(f),
        said(f) == s + "\n"@,
    ensures
        captured(Some(f)) == Some(s),
{
    assert(!is_space(s[0]));
    assert(!is_space(s[s.len() - 1]));
    lemma_trimmed_line(s);
}

/// The hash that `git` tells of a file.
pub proof fn lemma_hash_told(k: Kept, log: Seq<Exchange>, at: int, path: Seq<char>)
    requires
        0 <= at,
        good_hash(k.hash),
    ensures
        play_hash_object(log, at, path) matches Outcome::Done(blob, to) ==> to == at + 1
            && idles(log, at, to) && (tells(k, log[at]) ==> blob == hash_at(k, path)),
{
    reveal_strlit("hash-object");
    reveal_strlit("config");
    assert("hash-object"@.len() != "config"@.len());
    match play_hash_object(log, at, path) {
        Outcome::Done(blob, to) => {
            let w = texts(log[at].request.words@);
            assert(w == seq!["hash-object"@, path]);
            assert(w.last() == path);
            if tells(k, log[at]) {
                let f = log[at].reply->Ran_0->Ok_0;
                if k.files.contains_key(path) {
                    assert(is_word((k.hash)(k.files[path])));
                    lemma_word_captured(f, (k.hash)(k.files[path]));
                }
            }
        },
        _ => {},
    }
}

/// The hashes that `git` tells of the files from the `i`-th on.
pub proof fn lemma_blobs_told(
    windows: bool,
    k: Kept,
    log: Seq<Exchange>,
    at: int,
    root: Seq<char>,
    files: Seq<Seq<char>>,
    exclude_trust: bool,
    i: int,
    out: Seq<(Seq<char>, Seq<char>)>,
)
    requires
        0 <= at <= log.len(),
        0 <= i,
        good_hash(k.hash),
    ensures
        play_blobs(windows, log, at, root, files, exclude_trust, i, out) matches Outcome::Done(
            entries,
            to,
        ) ==> idles(log, at, to) && (all_there(k, files) && (forall|j: int|
            at <= j < to ==> tells(k, #[trigger] log[j])) ==> entries == out + hashed(
            k.hash,
            covered_from(windows, k, root, files, exclude_trust, i),
        )),
    decreases files.len() - i,
{
    let all = hashed(k.hash, covered_from(windows, k, root, files, exclude_trust, i));
    if i >= files.len() {
        assert(out + all =~= out);
    } else {
        let path = path_rel(windows, root, files[i]);
        let rest = hashed(k.hash, covered_from(windows, k, root, files, exclude_trust, i + 1));
        if exclude_trust && under_trust(path) {
            lemma_blobs_told(windows, k, log, at, root, files, exclude_trust, i + 1, out);
        } else {
            lemma_hash_told(k, log, at, files[i]);
            match play_hash_object(log, at, files[i]) {
                Outcome::Done(blob, next) => {
                    let more = out.push((path, or_empty(blob)));
                    lemma_blobs_told(
                        windows,
                        k,
                        log,
                        next,
                        root,
                        files,
                        exclude_trust,
                        i + 1,
                        more,
                    );
                    if tells(k, log[at]) && all_there(k, files) {
                        assert(k.files.contains_key(files[i]));
                        assert(all =~= seq![(path, (k.hash)(k.files[files[i]]))] + rest);
                        assert(more + rest =~= out + all);
                    }
                },
                _ => {},
            }
        }
    }
}

/// What the canonical text tells of a world: all that is covered.
pub proof fn lemma_canonical_told(
    windows: bool,
    k: Kept,
    log: Seq<Exchange>,
    at: int,
    root: Seq<char>,
    exclude_trust: bool,
    files: Seq<Seq<char>>,
    mid: int,
    text: Seq<char>,
    to: int,
)
    requires
        0 <= at <= log.len(),
        good_hash(k.hash),
        play_githooks_dir_files(windows, log, at + 1, root) == Outcome::Done(files, mid),
        play_canonical_content(windows, log, at, root, exclude_trust) == Outcome::Done(text, to),
    ensures
        idles(log, at, to),
        honest(k, log, at, to) && all_there(k, files) ==> text == text_covered(
            k.hash,
            covered(windows, k, root, files, exclude_trust),
        ),
{
    let config = path_joined(windows, root, CONFIG_FILE@);
    lemma_hash_told(k, log, at, config);
    lemma_walk_idles(
        windows,
        log,
        at + 1,
        seq![path_joined(windows, root, crate::config::HOOKS_DIR@)],
        seq![],
    );
    lemma_blobs_told(windows, k, log, mid, root, files, exclude_trust, 0, seq![]);
    assert forall|i: int| at <= i < to implies idle(#[trigger] log[i]) by {
        if i > at && i < mid {
            assert(idle(log[i]));
        }
    }
    lemma_idles(k, log, at, to);
    if honest(k, log, at, to) {
        assert(tells(k, log[at]));
        assert(Seq::<(Seq<char>, Seq<char>)>::empty() + hashed(
            k.hash,
            covered_from(windows, k, root, files, exclude_trust, 0),
        ) =~= hashed(k.hash, covered_from(windows, k, root, files, exclude_trust, 0)));
    }
}

/// What the consent hash tells of a world: that of all that is covered.
pub proof fn lemma_consent_told(
    windows: bool,
    k: Kept,
    log: Seq<Exchange>,
    at: int,
    root: Seq<char>,
    files: Seq<Seq<char>>,
    mid: int,
    hash: Seq<char>,
    to: int,
)
    requires
        0 <= at,
        good_hash(k.hash),
        yields_root(log, at, root),
        play_githooks_dir_files(windows, log, at + 3, root) == Outcome::Done(files, mid),
        play_consent_hash(windows, log, at) == Outcome::Done(Some(hash), to),
    ensures
        idles(log, at, to),
        honest(k, log, at, to) ==> is_word(hash),
        honest(k, log, at, to) && all_there(k, files) ==> hash == (k.hash)(
            text_covered(k.hash, covered(windows, k, root, files, false)),
        ) && k.files.contains_key(path_joined(windows, root, CONFIG_FILE@)),
{
    lemma_options_differ();
    let config = path_joined(windows, root, CONFIG_FILE@);
    match play_canonical_content(windows, log, at + 2, root, false) {
        Outcome::Done(text, next) => {
            lemma_canonical_told(windows, k, log, at + 2, root, false, files, mid, text, next);
            assert(to == next + 1);
            assert forall|i: int| at <= i < to implies idle(#[trigger] log[i]) by {
                if i >= at + 2 && i < next {
                    assert(idle(log[i]));
                }
            }
            lemma_idles(k, log, at, to);
            lemma_parts(k, log, at, at + 2, to);
            lemma_parts(k, log, at + 2, next, to);
            lemma_idles(k, log, at, at + 2);
            if honest(k, log, at, to) {
                assert(tells(k, log[at + 1]));
                assert(tells(k, log[next]));
                let h = (k.hash)(text);
                assert(is_word(h));
                assert(!is_space(h[0]));
                assert(!is_space(h[h.len() - 1]));
                lemma_trimmed_line(h);
            }
        },
        _ => {},
    }
}

/// Whether asking for the repository gave `root`.
pub open spec fn yields_root(log: Seq<Exchange>, at: int, root: Seq<char>) -> bool {
    play_repo_root(log, at) == Outcome::Done(Some(root), at + 1)
}

/// The options of `git` that are told apart.
pub proof fn lemma_options_differ()
    ensures
        "rev-parse"@ != "config"@,
        "hash-object"@ != "config"@,
        "--add"@ != "--get-all"@,
        "--add"@ != "--unset-all"@,
        "--unset-all"@ != "--get-all"@,
        "hooks.consent"@ != "--get-all"@,
        "hooks.consent"@ != "--unset-all"@,
        "hooks.consent"@ != "hooks.consentManifest"@,
        "hooks.consent"@ != "hooks.trustedKey"@,
        "--local"@ != "--global"@,
{
    reveal_strlit("--local");
    reveal_strlit("--global");
    assert("--local"@.len() != "--global"@.len());
    reveal_strlit("rev-parse");
    reveal_strlit("hash-object");
    reveal_strlit("config");
    reveal_strlit("--add");
    reveal_strlit("--get-all");
    reveal_strlit("--unset-all");
    reveal_strlit("hooks.consent");
    reveal_strlit("hooks.consentManifest");
    reveal_strlit("hooks.trustedKey");
    assert("rev-parse"@.len() == 9);
    assert("hash-object"@.len() == 11);
    assert("config"@.len() == 6);
    assert("--add"@.len() == 5);
    assert("--get-all"@.len() == 9);
    assert("--unset-all"@.len() == 11);
    assert("hooks.consent"@.len() == 13);
    assert("hooks.consentManifest"@.len() == 21);
    assert("hooks.trustedKey"@.len() == 16);
}

/// Whether the names of files, seen from `root`, keep to one line.
pub open spec fn plain_names(windows: bool, root: Seq<char>, files: Seq<Seq<char>>) -> bool {
    forall|j: int| 0 <= j < files.len() ==> !path_rel(
        windows,
        root,
        #[trigger] files[j],
    ).contains('\n')
}

/// The names of what is covered.
proof fn lemma_covered_names(
    windows: bool,
    k: Kept,
    root: Seq<char>,
    files: Seq<Seq<char>>,
    exclude_trust: bool,
    i: int,
)
    requires
        0 <= i,
        plain_names(windows, root, files),
    ensures
        forall|j: int|
            0 <= j < covered_from(windows, k, root, files, exclude_trust, i).len() ==> !(
            #[trigger] covered_from(windows, k, root, files, exclude_trust, i)[j]).0.contains('\n'),
    decreases files.len() - i,
{
    if i < files.len() {
        assert(!path_rel(windows, root, files[i]).contains('\n'));
        lemma_covered_names(windows, k, root, files, exclude_trust, i + 1);
        let all = covered_from(windows, k, root, files, exclude_trust, i);
        let rest = covered_from(windows, k, root, files, exclude_trust, i + 1);
        assert forall|j: int| 0 <= j < all.len() implies !(#[trigger] all[j]).0.contains('\n') by {
            if all.len() == rest.len() {
                assert(all[j] == rest[j]);
            } else if j > 0 {
                assert(all[j] == rest[j - 1]);
            }
        }
    }
}

/// The canonical texts of two worlds are the same exactly when all that is covered
/// is the same in both: the text of the configuration, and the names and texts of
/// the files. The same holds of what is signed, which leaves out the files of the
/// signature. Names keep to one line.
pub proof fn law_canonical_text_tells_worlds_apart(
    windows: bool,
    k: Kept,
    root: Seq<char>,
    files: Seq<Seq<char>>,
    k2: Kept,
    root2: Seq<char>,
    files2: Seq<Seq<char>>,
    exclude_trust: bool,
)
    requires
        good_hash(k.hash),
        k2.hash == k.hash,
        k.files.contains_key(path_joined(windows, root, CONFIG_FILE@)),
        k2.files.contains_key(path_joined(windows, root2, CONFIG_FILE@)),
        plain_names(windows, root, files),
        plain_names(windows, root2, files2),
    ensures
        text_covered(k.hash, covered(windows, k, root, files, exclude_trust)) == text_covered(
            k.hash,
            covered(windows, k2, root2, files2, exclude_trust),
        ) <==> covered(windows, k, root, files, exclude_trust) == covered(
            windows,
            k2,
            root2,
            files2,
            exclude_trust,
        ),
{
    let a = covered(windows, k, root, files, exclude_trust);
    let b = covered(windows, k2, root2, files2, exclude_trust);
    let h = k.hash;
    let ha = hashed(h, a.1);
    let hb = hashed(h, b.1);
    lemma_covered_names(windows, k, root, files, exclude_trust, 0);
    lemma_covered_names(windows, k2, root2, files2, exclude_trust, 0);
    assert forall|s: Seq<char>| !(#[trigger] h(s)).contains('\n') && !h(s).contains(':') by {
        if h(s).contains('\n') {
            let t = h(s);
            let i = choose|i: int| 0 <= i < t.len() && t[i] == '\n';
            assert(is_word(t));
            assert(!is_space(t[i]));
        }
    }
    reveal_strlit(".githooks.toml");
    assert(!CONFIG_FILE@.contains('\n')) by {
        assert(CONFIG_FILE@ == ".githooks.toml"@);
    }
    assert forall|i: int| 0 <= i < ha.len() implies one_line((#[trigger] ha[i]).0, ha[i].1) by {
        assert(!a.1[i].0.contains('\n'));
    }
    assert forall|i: int| 0 <= i < hb.len() implies one_line((#[trigger] hb[i]).0, hb[i].1) by {
        assert(!b.1[i].0.contains('\n'));
    }
    law_canonical_text_tells(Some(h(a.0->0)), ha, Some(h(b.0->0)), hb);
    if text_covered(h, a) == text_covered(h, b) {
        assert(h(a.0->0) == h(b.0->0));
        assert(a.1 =~= b.1) by {
            assert(ha.len() == hb.len());
            assert forall|i: int| 0 <= i < a.1.len() implies a.1[i] == b.1[i] by {
                assert(ha[i] == hb[i]);
                assert(h(a.1[i].1) == h(b.1[i].1));
            }
        }
    }
}

/// The consent hashes of two worlds are the same exactly when all that consent
/// covers is the same in both: the text of the configuration, and the names and
/// texts of the files under the directory of hook scripts. Any change of a byte, a
/// name, or the set of files makes for another hash.
pub proof fn law_consent_hash_tells_worlds_apart(
    windows: bool,
    k: Kept,
    log: Seq<Exchange>,
    at: int,
    root: Seq<char>,
    files: Seq<Seq<char>>,
    mid: int,
    hash: Seq<char>,
    to: int,
    k2: Kept,
    log2: Seq<Exchange>,
    at2: int,
    root2: Seq<char>,
    files2: Seq<Seq<char>>,
    mid2: int,
    hash2: Seq<char>,
    to2: int,
)
    requires
        0 <= at,
        0 <= at2,
        good_hash(k.hash),
        k2.hash == k.hash,
        yields_root(log, at, root),
        play_githooks_dir_files(windows, log, at + 3, root) == Outcome::Done(files, mid),
        play_consent_hash(windows, log, at) == Outcome::Done(Some(hash), to),
        honest(k, log, at, to),
        all_there(k, files),
        plain_names(windows, root, files),
        yields_root(log2, at2, root2),
        play_githooks_dir_files(windows, log2, at2 + 3, root2) == Outcome::Done(files2, mid2),
        play_consent_hash(windows, log2, at2) == Outcome::Done(Some(hash2), to2),
        honest(k2, log2, at2, to2),
        all_there(k2, files2),
        plain_names(windows, root2, files2),
    ensures
        hash == hash2 <==> covered(windows, k, root, files, false) == covered(
            windows,
            k2,
            root2,
            files2,
            false,
        ),
        kept_at(k, log, at, to) == k,
{
    lemma_consent_told(windows, k, log, at, root, files, mid, hash, to);
    lemma_consent_told(windows, k2, log2, at2, root2, files2, mid2, hash2, to2);
    lemma_idles(k, log, at, to);
    law_canonical_text_tells_worlds_apart(windows, k, root, files, k2, root2, files2, false);
    let a = text_covered(k.hash, covered(windows, k, root, files, false));
    let b = text_covered(k.hash, covered(windows, k2, root2, files2, false));
    if hash == hash2 {
        assert((k.hash)(a) == (k.hash)(b));
    }
}

// ---------------------------------------------------------------------------
// Recording a decision.
// ---------------------------------------------------------------------------

/// Whether two worlds differ at most in the values of a key.
pub open spec fn same_but(k: Kept, k2: Kept, key: Seq<char>) -> bool {
    &&& k2.files == k.files
    &&& k2.dirs == k.dirs
    &&& k2.env == k.env
    &&& k2.hash == k.hash
    &&& k2.executable == k.executable
    &&& k2.global == k.global
    &&& k2.windows == k.windows
    &&& forall|other: Seq<char>|
        other != key ==> #[trigger] values(k2.config, other) == values(k.config, other)
}

/// The files from the `i`-th on that have a blob, with their blobs.
pub open spec fn blobs_from(
    windows: bool,
    k: Kept,
    root: Seq<char>,
    files: Seq<Seq<char>>,
    i: int,
) -> Seq<(Seq<char>, Seq<char>)>
    decreases files.len() - i,
{
    if i >= files.len() {
        seq![]
    } else {
        (match hash_at(k, files[i]) {
            Some(blob) => seq![(path_rel(windows, root, files[i]), blob)],
            None => seq![],
        }) + blobs_from(windows, k, root, files, i + 1)
    }
}

/// Whether two worlds differ at most in the recorded decision and its manifest.
pub open spec fn same_but_decision(k: Kept, k2: Kept) -> bool {
    &&& k2.files == k.files
    &&& k2.dirs == k.dirs
    &&& k2.env == k.env
    &&& k2.hash == k.hash
    &&& k2.executable == k.executable
    &&& k2.global == k.global
    &&& k2.windows == k.windows
    &&& forall|other: Seq<char>|
        other != "hooks.consent"@ && other != "hooks.consentManifest"@ ==> #[trigger] values(
            k2.config,
            other,
        ) == values(k.config, other)
}

/// Writing the manifest adds its lines.
pub proof fn lemma_manifest_kept(
    windows: bool,
    k: Kept,
    log: Seq<Exchange>,
    at: int,
    root: Seq<char>,
    files: Seq<Seq<char>>,
    i: int,
    to: int,
)
    requires
        0 <= at <= log.len(),
        0 <= i,
        good_hash(k.hash),
        play_manifest_from(windows, log, at, root, files, i) == Outcome::Done((), to),
    ensures
        at <= to <= log.len(),
        honest(k, log, at, to) ==> same_but(
            k,
            kept_at(k, log, at, to),
            "hooks.consentManifest"@,
        ) && values(kept_at(k, log, at, to).config, "hooks.consentManifest"@) == values(
            k.config,
            "hooks.consentManifest"@,
        ) + manifest_lines(blobs_from(windows, k, root, files, i)),
    decreases files.len() - i,
{
    lemma_options_differ();
    let key = "hooks.consentManifest"@;
    let rest = blobs_from(windows, k, root, files, i + 1);
    if i >= files.len() {
        assert(values(k.config, key) + manifest_lines(seq![]) =~= values(k.config, key));
    } else {
        let e = log[at];
        let w = texts(e.request.words@);
        assert(w == seq!["hash-object"@, "-w"@, files[i]]);
        assert(w.last() == files[i]);
        assert(kept_after(k, e) == k);
        if tells(k, e) {
            let f = e.reply->Ran_0->Ok_0;
            if k.files.contains_key(files[i]) {
                let h = (k.hash)(k.files[files[i]]);
                assert(is_word(h));
                lemma_word_captured(f, h);
            }
        }
        match play_store_object(log, at, files[i]) {
            Outcome::Done(None, next) => {
                lemma_manifest_kept(windows, k, log, next, root, files, i + 1, to);
                assert(kept_at(k, log, at, to) == kept_at(k, log, next, to));
                assert(Seq::<(Seq<char>, Seq<char>)>::empty() + rest =~= rest);
            },
            Outcome::Done(Some(blob), next) => {
                let path = path_rel(windows, root, files[i]);
                let line = manifest_line(path, blob);
                let e2 = log[next];
                let w2 = texts(e2.request.words@);
                assert(w2 == manifest_addition(line));
                assert(w2[3] == key && w2[4] == line && w2[2] == "--add"@);
                let k2 = kept_after(k, e2);
                assert(values(k2.config, key) == values(k.config, key).push(line));
                assert(same_but(k, k2, key));
                lemma_manifest_kept(windows, k2, log, next + 1, root, files, i + 1, to);
                assert(kept_at(k, log, at, to) == kept_at(k, log, next, to));
                assert(kept_at(k, log, next, to) == kept_at(k2, log, next + 1, to));
                if honest(k, log, at, to) {
                    assert(honest(k, log, next, to));
                    lemma_blobs_same(windows, k, k2, root, files, i + 1);
                    assert(manifest_lines(seq![(path, blob)] + rest) =~= seq![line]
                        + manifest_lines(rest));
                    assert(values(k.config, key).push(line) + manifest_lines(rest) =~= values(
                        k.config,
                        key,
                    ) + manifest_lines(seq![(path, blob)] + rest));
                }
            },
            _ => {},
        }
    }
}

/// Where the files are the same, so are their blobs.
proof fn lemma_blobs_same(
    windows: bool,
    k: Kept,
    k2: Kept,
    root: Seq<char>,
    files: Seq<Seq<char>>,
    i: int,
)
    requires
        0 <= i,
        k2.files == k.files,
        k2.hash == k.hash,
    ensures
        blobs_from(windows, k2, root, files, i) == blobs_from(windows, k, root, files, i),
    decreases files.len() - i,
{
    if i < files.len() {
        lemma_blobs_same(windows, k, k2, root, files, i + 1);
    }
}

/// The manifest of a world: the configuration and the files that were found, with
/// their blobs.
pub open spec fn manifest_of(windows: bool, k: Kept, root: Seq<char>, files: Seq<Seq<char>>) -> Seq<
    (Seq<char>, Seq<char>),
> {
    blobs_from(windows, k, root, seq![path_joined(windows, root, CONFIG_FILE@)] + files, 0)
}

/// Recording a decision leaves it, and the manifest of what was accepted, in the
/// configuration of `git`, and nothing of an earlier decision.
pub proof fn lemma_recorded(
    windows: bool,
    k: Kept,
    log: Seq<Exchange>,
    at: int,
    accept: bool,
    root: Seq<char>,
    files: Seq<Seq<char>>,
    a: int,
    hash: Seq<char>,
    b: int,
    root2: Seq<char>,
    files2: Seq<Seq<char>>,
    c: int,
    to: int,
)
    requires
        0 <= at,
        good_hash(k.hash),
        yields_root(log, at, root),
        play_githooks_dir_files(windows, log, at + 3, root) == Outcome::Done(files, a),
        play_consent_hash(windows, log, at) == Outcome::Done(Some(hash), b),
        accept ==> yields_root(log, b + 2, root2),
        accept ==> play_githooks_dir_files(windows, log, b + 3, root2) == Outcome::Done(files2, c),
        play_record_consent(windows, log, at, accept) == Outcome::Done((), to),
        honest(k, log, at, to),
    ensures
        is_word(hash),
        at <= to,
        same_but_decision(k, kept_at(k, log, at, to)),
        values(kept_at(k, log, at, to).config, "hooks.consent"@) == seq![verdict(accept, hash)],
        values(kept_at(k, log, at, to).config, "hooks.consentManifest"@) == (if accept {
            manifest_lines(manifest_of(windows, k, root2, files2))
        } else {
            seq![]
        }),
{
    lemma_options_differ();
    let key = "hooks.consentManifest"@;
    lemma_consent_told(windows, k, log, at, root, files, a, hash, b);
    lemma_idles(k, log, at, b);
    assert(texts(log[b].request.words@) == state_update(verdict(accept, hash)));
    let w = texts(log[b].request.words@);
    assert(w[2] == "hooks.consent"@ && w[3] == verdict(accept, hash));
    let k1 = kept_after(k, log[b]);
    assert(values(k1.config, "hooks.consent"@) == seq![verdict(accept, hash)]);
    assert(texts(log[b + 1].request.words@) == manifest_removal());
    let w1 = texts(log[b + 1].request.words@);
    assert(w1[2] == "--unset-all"@ && w1[3] == key);
    let k2 = kept_after(k1, log[b + 1]);
    assert(w[1] == "--local"@ && w1[1] == "--local"@);
    assert(same_but_decision(k, k2));
    assert(values(k2.config, key) == Seq::<Seq<char>>::empty());
    assert(values(k2.config, "hooks.consent"@) == seq![verdict(accept, hash)]);
    if accept {
        let all = seq![path_joined(windows, root2, CONFIG_FILE@)] + files2;
        lemma_walk_idles(
            windows,
            log,
            b + 3,
            seq![path_joined(windows, root2, crate::config::HOOKS_DIR@)],
            seq![],
        );
        assert forall|i: int| b + 2 <= i < c implies idle(#[trigger] log[i]) by {
            if i > b + 2 {
                assert(idle(log[i]));
            }
        }
        lemma_manifest_kept(windows, k2, log, c, root2, all, 0, to);
        lemma_parts(k, log, at, b, to);
        lemma_parts(k, log, b, b + 2, to);
        assert(kept_at(k, log, b, b + 2) == k2) by {
            reveal_with_fuel(kept_at, 3);
        }
        lemma_parts(k2, log, b + 2, c, to);
        lemma_idles(k2, log, b + 2, c);
        lemma_blobs_same(windows, k, k2, root2, all, 0);
        let lines = manifest_lines(manifest_of(windows, k, root2, files2));
        assert(seq![] + lines =~= lines);
    } else {
        assert(to == b + 2);
        lemma_parts(k, log, at, b, to);
        assert(kept_at(k, log, b, b + 2) == k2) by {
            reveal_with_fuel(kept_at, 3);
        }
    }
}

/// Whether a manifest can be written down: paths hold no tab and no line feed, and
/// begin in something other than white space; blobs are words.
pub open spec fn fair_pairs(pairs: Seq<(Seq<char>, Seq<char>)>) -> bool {
    forall|i: int|
        0 <= i < pairs.len() ==> {
            let (path, blob) = #[trigger] pairs[i];
            &&& !path.contains('\t')
            &&& !path.contains('\n')
            &&& path.len() > 0
            &&& !is_space(path[0])
            &&& is_word(blob)
        }
}

/// A decision that was recorded comes back when it is read, with the manifest of
/// what was accepted, and nothing is left of an earlier one. Nothing else was changed.
pub proof fn law_decision_comes_back(
    windows: bool,
    k: Kept,
    log: Seq<Exchange>,
    at: int,
    accept: bool,
    root: Seq<char>,
    files: Seq<Seq<char>>,
    a: int,
    hash: Seq<char>,
    b: int,
    files2: Seq<Seq<char>>,
    c: int,
    to: int,
    log2: Seq<Exchange>,
    at2: int,
)
    requires
        0 <= at,
        0 <= at2,
        good_hash(k.hash),
        yields_root(log, at, root),
        play_githooks_dir_files(windows, log, at + 3, root) == Outcome::Done(files, a),
        play_consent_hash(windows, log, at) == Outcome::Done(Some(hash), b),
        accept ==> yields_root(log, b + 2, root),
        accept ==> play_githooks_dir_files(windows, log, b + 3, root) == Outcome::Done(files2, c),
        play_record_consent(windows, log, at, accept) == Outcome::Done((), to),
        honest(k, log, at, to),
        fair_pairs(manifest_of(windows, k, root, files2)),
        at2 < log2.len() ==> tells(kept_at(k, log, at, to), log2[at2]),
    ensures
        same_but_decision(k, kept_at(k, log, at, to)),
        play_consent_state(log2, at2) matches Outcome::Done(state, _) ==> state == Some(
            verdict(accept, hash),
        ) && decision(state, Some(hash)) == (if accept {
            Decision::Accepted
        } else {
            Decision::Declined
        }),
        play_read_manifest(log2, at2) matches Outcome::Done(pairs, _) ==> pairs == (if accept {
            manifest_of(windows, k, root, files2)
        } else {
            seq![]
        }),
{
    lemma_options_differ();
    lemma_recorded(windows, k, log, at, accept, root, files, a, hash, b, root, files2, c, to);
    let k2 = kept_at(k, log, at, to);
    let key = "hooks.consentManifest"@;
    if play_consent_state(log2, at2) is Done {
        let w = texts(log2[at2].request.words@);
        assert(w == state_query());
        assert(w[2] == "hooks.consent"@);
        assert(last_value(k2.config, "hooks.consent"@) == Some(verdict(accept, hash)));
        let f = log2[at2].reply->Ran_0->Ok_0;
        assert(!is_space(hash[0]));
        assert(!is_space(hash[hash.len() - 1]));
        lemma_trimmed_line(hash);
        law_decision_read_back(accept, hash + "\n"@, f);
        law_decision_holds(accept, hash);
    }
    if play_read_manifest(log2, at2) is Done {
        let w = texts(log2[at2].request.words@);
        assert(w == seq!["config"@, "--local"@, "--get-all"@, key]);
        assert(w[3] == key && w[2] == "--get-all"@);
        let pairs = manifest_of(windows, k, root, files2);
        if accept && pairs.len() > 0 {
            assert forall|i: int| 0 <= i < pairs.len() implies ({
                let (path, blob) = #[trigger] pairs[i];
                &&& !path.contains('\t')
                &&& !path.contains('\n')
                &&& path.len() > 0
                &&& !is_space(path[0])
                &&& blob.len() > 0
                &&& forall|j: int| 0 <= j < blob.len() ==> !is_space(#[trigger] blob[j])
            }) by {
                assert(is_word(pairs[i].1));
            }
            law_manifest_read_back(pairs);
            assert(manifest_lines(pairs).len() > 0);
        } else if accept {
            assert(manifest_lines(pairs) =~= seq![]);
            assert(pairs =~= seq![]);
        }
    }
}

// ---------------------------------------------------------------------------
// Trusting keys in the repository.
// ---------------------------------------------------------------------------

/// Whether a text is one line, with no white space at either end.
pub open spec fn is_line(s: Seq<char>) -> bool {
    s.len() > 0 && !s.contains('\n') && !is_space(s[0]) && !is_space(s.last())
}

/// Whether all texts of a list are lines, as fingerprints are.
pub open spec fn all_lines(list: Seq<Seq<char>>) -> bool {
    forall|i: int| 0 <= i < list.len() ==> is_line(#[trigger] list[i])
}

/// The keys that are trusted in the repository.
pub open spec fn local_keys(k: Kept) -> Seq<Seq<char>> {
    values(k.config, "hooks.trustedKey"@)
}

/// The keys that are trusted in the repository, with one more, unless it is there.
pub open spec fn keys_with(keys: Seq<Seq<char>>, key: Seq<char>) -> Seq<Seq<char>> {
    if keys.contains(key) {
        keys
    } else {
        keys.push(key)
    }
}

/// The keys that `git` tells of.
proof fn lemma_keys_told(k: Kept, log: Seq<Exchange>, at: int)
    requires
        0 <= at,
        all_lines(local_keys(k)),
    ensures
        play_local_trusted_keys(log, at) matches Outcome::Done(keys, to) ==> to == at + 1
            && idles(log, at, to) && (tells(k, log[at]) ==> keys == local_keys(k)),
{
    lemma_options_differ();
    let all = local_keys(k);
    if play_local_trusted_keys(log, at) is Done {
        let w = texts(log[at].request.words@);
        assert(w == seq!["config"@, "--local"@, "--get-all"@, "hooks.trustedKey"@]);
        assert(w[2] == "--get-all"@ && w[3] == "hooks.trustedKey"@);
        if all.len() > 0 {
            assert forall|i: int| 0 <= i < all.len() implies !(#[trigger] all[i]).contains('\n')
                && all[i].len() > 0 && !is_space(all[i][0]) && !is_space(all[i].last()) by {
                assert(is_line(all[i]));
            }
            assert(all[0].len() > 0);
            assert(all[all.len() - 1].len() > 0);
            law_lines_read_back(all);
        } else {
            assert(all =~= seq![]);
        }
    }
}

/// Telling `git` to trust a key adds it.
proof fn lemma_key_added(k: Kept, log: Seq<Exchange>, at: int, key: Seq<char>)
    requires
        0 <= at,
    ensures
        play_git(log, at, key_addition(key)) matches Outcome::Done(_, to) ==> to == at + 1 && to
            <= log.len() && same_but(k, kept_after(k, log[at]), "hooks.trustedKey"@) && local_keys(
            kept_after(k, log[at]),
        ) == local_keys(k).push(key),
{
    lemma_options_differ();
    if play_git(log, at, key_addition(key)) is Done {
        let w = texts(log[at].request.words@);
        assert(w == key_addition(key));
        assert(w[2] == "--add"@ && w[3] == "hooks.trustedKey"@ && w[4] == key);
    }
}

/// A key that is trusted in the repository is added to those that are, unless it is
/// among them; nothing else changes. It is then seen to be trusted. Trusting it once more
/// asks for nothing but which keys are trusted, and adds nothing.
pub proof fn law_trusting_twice_adds_once(
    windows: bool,
    k: Kept,
    log: Seq<Exchange>,
    at: int,
    to: int,
    log2: Seq<Exchange>,
    at2: int,
    to2: int,
    log3: Seq<Exchange>,
    at3: int,
    to3: int,
    key: Seq<char>,
)
    requires
        0 <= at,
        0 <= at2,
        0 <= at3,
        is_line(key),
        all_lines(local_keys(k)),
        play_add_local_trusted_key(log, at, key) == Outcome::Done((), to),
        honest(k, log, at, to),
        play_add_local_trusted_key(log2, at2, key) == Outcome::Done((), to2),
        honest(kept_at(k, log, at, to), log2, at2, to2),
        honest(kept_at(k, log, at, to), log3, at3, to3),
    ensures
        local_keys(kept_at(k, log, at, to)) == keys_with(local_keys(k), key),
        local_keys(kept_at(k, log, at, to)).contains(key),
        same_but(k, kept_at(k, log, at, to), "hooks.trustedKey"@),
        play_key_trusted(windows, log3, at3, key) matches Outcome::Done(trusted, end) ==> (end
            <= to3 ==> trusted),
        to2 == at2 + 1,
        kept_at(kept_at(k, log, at, to), log2, at2, to2) == kept_at(k, log, at, to),
{
    lemma_trusted_kept(k, log, at, to, key);
    let k2 = kept_at(k, log, at, to);
    lemma_keys_told(k2, log2, at2);
    assert(tells(k2, log2[at2]));
    lemma_idles(k2, log2, at2, at2 + 1);
    match play_key_trusted(windows, log3, at3, key) {
        Outcome::Done(trusted, end) => {
            lemma_trusted_told(windows, k2, log3, at3, key, trusted, end);
            if end <= to3 {
                lemma_parts(k2, log3, at3, end, to3);
            }
        },
        _ => {},
    }
}

/// Trusting a key in the repository adds it, unless it is there.
pub proof fn lemma_trusted_kept(k: Kept, log: Seq<Exchange>, at: int, to: int, key: Seq<char>)
    requires
        0 <= at,
        is_line(key),
        all_lines(local_keys(k)),
        play_add_local_trusted_key(log, at, key) == Outcome::Done((), to),
        honest(k, log, at, to),
    ensures
        at < to <= log.len(),
        local_keys(kept_at(k, log, at, to)) == keys_with(local_keys(k), key),
        local_keys(kept_at(k, log, at, to)).contains(key),
        all_lines(local_keys(kept_at(k, log, at, to))),
        same_but(k, kept_at(k, log, at, to), "hooks.trustedKey"@),
{
    lemma_keys_told(k, log, at);
    assert(tells(k, log[at]));
    lemma_idles(k, log, at, at + 1);
    let keys = local_keys(k);
    if keys.contains(key) {
        assert(to == at + 1);
    } else {
        lemma_key_added(k, log, at + 1, key);
        lemma_parts(k, log, at, at + 1, to);
        assert(kept_at(k, log, at + 1, to) == kept_after(k, log[at + 1])) by {
            reveal_with_fuel(kept_at, 2);
        }
        assert(keys.push(key)[keys.len() as int] == key);
        assert forall|i: int| 0 <= i < keys.push(key).len() implies is_line(
            #[trigger] keys.push(key)[i],
        ) by {
            if i < keys.len() {
                assert(is_line(keys[i]));
            }
        }
    }
}

/// Trusting keys one after another adds them in that order.
proof fn lemma_keys_kept(
    k: Kept,
    log: Seq<Exchange>,
    at: int,
    keys: Seq<Seq<char>>,
    i: int,
    to: int,
)
    requires
        0 <= at <= log.len(),
        0 <= i <= keys.len(),
        play_add_keys(log, at, keys, i) == Outcome::Done((), to),
    ensures
        at <= to <= log.len(),
        same_but(k, kept_at(k, log, at, to), "hooks.trustedKey"@),
        local_keys(kept_at(k, log, at, to)) == local_keys(k) + keys.skip(i),
    decreases keys.len() - i,
{
    if i >= keys.len() {
        assert(local_keys(k) + keys.skip(i) =~= local_keys(k));
    } else {
        lemma_key_added(k, log, at, keys[i]);
        let k2 = kept_after(k, log[at]);
        lemma_keys_kept(k2, log, at + 1, keys, i + 1, to);
        assert(kept_at(k, log, at, to) == kept_at(k2, log, at + 1, to));
        assert(local_keys(k).push(keys[i]) + keys.skip(i + 1) =~= local_keys(k) + keys.skip(i));
    }
}

/// One key as the only argument means the repository.
proof fn lemma_one_key(key: Seq<char>)
    requires
        key != "--global"@,
    ensures
        trust_args(seq![key]) == Some((key, false)),
{
    let args = seq![key];
    let keep = |a: Seq<char>| a != "--global"@;
    assert(args.filter(keep) =~= seq![key]) by {
        reveal_with_fuel(Seq::filter, 2);
        assert(args.drop_last() =~= seq![]);
        assert(args.last() == key);
    }
}

/// Where a key is taken out, it makes no difference that it was added.
proof fn lemma_taken_out(keys: Seq<Seq<char>>, key: Seq<char>)
    ensures
        keys_other_than(keys_with(keys, key), key) == keys_other_than(keys, key),
        !keys.contains(key) ==> keys_other_than(keys, key) == keys,
    decreases keys.len(),
{
    let keep = other_than(key);
    if !keys.contains(key) {
        assert(keys.push(key).drop_last() =~= keys);
        assert(keys.push(key).filter(keep) == keys.filter(keep)) by {
            reveal(Seq::filter);
        }
        assert(keys.filter(keep) =~= keys) by {
            reveal(Seq::filter);
            if keys.len() > 0 {
                assert(!keys.drop_last().contains(key)) by {
                    if keys.drop_last().contains(key) {
                        let i = choose|i: int|
                            0 <= i < keys.len() - 1 && keys.drop_last()[i] == key;
                        assert(keys[i] == key);
                    }
                }
                lemma_taken_out(keys.drop_last(), key);
                assert(keys[keys.len() - 1] == keys.last());
                assert(keys.drop_last().push(keys.last()) =~= keys);
            }
        }
    }
}

/// Trusting a key in the repository and then no longer trusting it leaves the keys
/// that were trusted before, without this one and in the same order. No file
/// changes, and so neither does the org-wide policy: the key is trusted now exactly
/// where the policy trusts it.
pub proof fn law_trust_and_untrust(
    windows: bool,
    k: Kept,
    log: Seq<Exchange>,
    to: int,
    log2: Seq<Exchange>,
    to2: int,
    log3: Seq<Exchange>,
    to3: int,
    key: Seq<char>,
)
    requires
        is_line(key),
        key != "--global"@,
        all_lines(local_keys(k)),
        play_trust_cmd(windows, log, 0, seq![key]) == Outcome::Done((), to),
        honest(k, log, 0, to),
        play_untrust_cmd(windows, log2, 0, seq![key]) == Outcome::Done((), to2),
        honest(kept_at(k, log, 0, to), log2, 0, to2),
        honest(kept_at(kept_at(k, log, 0, to), log2, 0, to2), log3, 0, to3),
    ensures
        local_keys(kept_at(k, log, 0, to)) == keys_with(local_keys(k), key),
        local_keys(kept_at(kept_at(k, log, 0, to), log2, 0, to2)) == keys_other_than(
            local_keys(k),
            key,
        ),
        !local_keys(k).contains(key) ==> local_keys(
            kept_at(kept_at(k, log, 0, to), log2, 0, to2),
        ) == local_keys(k),
        same_but(k, kept_at(kept_at(k, log, 0, to), log2, 0, to2), "hooks.trustedKey"@),
        play_key_trusted(windows, log3, 0, key) matches Outcome::Done(trusted, end) ==> (end <= to3
            ==> trusted == policy_keys(windows, k).contains(key)),
{
    lemma_options_differ();
    lemma_one_key(key);
    let k2 = kept_at(k, log, 0, to);
    assert(idle(log[0]));
    assert(kept_after(k, log[0]) == k);
    assert(idle(log[to - 1]));
    lemma_parts(k, log, 0, 1, to);
    lemma_parts(k, log, 1, to - 1, to);
    assert(kept_at(k, log, 0, 1) == k) by {
        reveal_with_fuel(kept_at, 2);
    }
    lemma_trusted_kept(k, log, 1, to - 1, key);
    let k1 = kept_at(k, log, 1, to - 1);
    assert(kept_at(k1, log, to - 1, to) == k1) by {
        reveal_with_fuel(kept_at, 2);
    }
    assert(k2 == k1);
    let k3 = kept_at(k2, log2, 0, to2);
    lemma_untrusted_kept(windows, k2, log2, to2, key);
    lemma_taken_out(local_keys(k), key);
    law_not_trusted_after_untrust_locally(local_keys(k), key);
    assert forall|i: int| 0 <= i < local_keys(k3).len() implies is_line(
        #[trigger] local_keys(k3)[i],
    ) by {
        assert(local_keys(k3).contains(local_keys(k3)[i]));
        let j = choose|j: int|
            0 <= j < local_keys(k).len() && local_keys(k)[j] == local_keys(k3)[i];
        assert(is_line(local_keys(k)[j]));
    }
    match play_key_trusted(windows, log3, 0, key) {
        Outcome::Done(trusted, end) => {
            if end <= to3 {
                lemma_parts(k3, log3, 0, end, to3);
                lemma_trusted_told(windows, k3, log3, 0, key, trusted, end);
                assert(policy_keys(windows, k3) == policy_keys(windows, k));
                assert(!local_keys(k3).contains(key));
            }
        },
        _ => {},
    }
}

/// The home directory: that of the user, or their profile.
pub open spec fn home_of(k: Kept) -> Option<Seq<char>> {
    match variable(k, "HOME"@) {
        Some(h) => Some(h),
        None => variable(k, "USERPROFILE"@),
    }
}

/// The org-wide policy.
pub open spec fn policy_of(windows: bool, k: Kept) -> Entries {
    match home_of(k) {
        Some(h) => entries_of(file_at(k, path_joined(windows, h, policy_place()))),
        None => seq![],
    }
}

/// The keys that the policy trusts.
pub open spec fn policy_keys(windows: bool, k: Kept) -> Seq<Seq<char>> {
    keys_trusted(policy_of(windows, k))
}

/// The home directory that is told of.
pub proof fn lemma_home_told(k: Kept, log: Seq<Exchange>, at: int, h: Seq<char>, to: int)
    requires
        0 <= at,
        play_home(log, at) == Outcome::Done(h, to),
    ensures
        idles(log, at, to),
        at < to,
        honest(k, log, at, to) ==> home_of(k) == Some(h),
{
    lemma_idles(k, log, at, to);
    if honest(k, log, at, to) {
        assert(tells(k, log[at]));
        assert(texts(log[at].request.words@) == seq!["HOME"@]);
        assert(texts(log[at].request.words@)[0] == "HOME"@);
        if to == at + 2 {
            assert(tells(k, log[at + 1]));
            assert(texts(log[at + 1].request.words@) == seq!["USERPROFILE"@]);
            assert(texts(log[at + 1].request.words@)[0] == "USERPROFILE"@);
        }
    }
}

/// The policy that is told of.
pub proof fn lemma_policy_told(
    windows: bool,
    k: Kept,
    log: Seq<Exchange>,
    at: int,
    doc: Entries,
    to: int,
)
    requires
        0 <= at,
        play_policy(windows, log, at) == Outcome::Done(doc, to),
    ensures
        idles(log, at, to),
        at < to,
        honest(k, log, at, to) ==> policy_of(windows, k) == doc,
{
    match play_home(log, at) {
        Outcome::Done(h, next) => {
            lemma_home_told(k, log, at, h, next);
            assert(idles(log, at, to));
            lemma_parts(k, log, at, next, to);
            lemma_idles(k, log, at, next);
            lemma_idles(k, log, at, to);
            let path = path_joined(windows, h, policy_place());
            assert(texts(log[next].request.words@) == seq![path]);
            assert(texts(log[next].request.words@)[0] == path);
        },
        _ => {},
    }
}

/// Whether a key is trusted, as it is told.
pub proof fn lemma_trusted_told(
    windows: bool,
    k: Kept,
    log: Seq<Exchange>,
    at: int,
    key: Seq<char>,
    trusted: bool,
    to: int,
)
    requires
        0 <= at,
        key.len() > 0,
        all_lines(local_keys(k)),
        play_key_trusted(windows, log, at, key) == Outcome::Done(trusted, to),
    ensures
        idles(log, at, to),
        honest(k, log, at, to) ==> trusted == (policy_keys(windows, k).contains(key) || local_keys(
            k,
        ).contains(key)),
{
    match play_policy(windows, log, at) {
        Outcome::Done(doc, next) => {
            lemma_policy_told(windows, k, log, at, doc, next);
            lemma_keys_told(k, log, next);
            lemma_parts(k, log, at, next, to);
            lemma_idles(k, log, at, next);
        },
        _ => {},
    }
}

/// No longer trusting a key in the repository leaves the others, in their order.
proof fn lemma_untrusted_kept(windows: bool, k: Kept, log: Seq<Exchange>, to: int, key: Seq<char>)
    requires
        key != "--global"@,
        all_lines(local_keys(k)),
        play_untrust_cmd(windows, log, 0, seq![key]) == Outcome::Done((), to),
        honest(k, log, 0, to),
    ensures
        local_keys(kept_at(k, log, 0, to)) == keys_other_than(local_keys(k), key),
        same_but(k, kept_at(k, log, 0, to), "hooks.trustedKey"@),
{
    lemma_options_differ();
    lemma_one_key(key);
    assert(idle(log[0]));
    lemma_keys_told(k, log, 1);
    assert(idle(log[1]));
    let keys = play_local_trusted_keys(log, 1)->Done_0;
    let fewer = keys_other_than(keys, key);
    assert(play_untrust_locally(log, 0, key) == Outcome::Done((), to));
    assert(play_git_capture(log, 2, keys_removal()) is Done);
    match play_add_keys(log, 3, fewer, 0) {
        Outcome::Done(u, m) => {
            assert(u == ());
            assert(to == m + 1);
        },
        _ => {},
    }
    lemma_keys_kept(k, log, 3, fewer, 0, to - 1);
    lemma_idles(k, log, 0, 2);
    lemma_parts(k, log, 0, 2, to);
    assert(tells(k, log[1]));
    let w = texts(log[2].request.words@);
    assert(w == keys_removal());
    assert(w[2] == "--unset-all"@ && w[3] == "hooks.trustedKey"@);
    let k1 = kept_after(k, log[2]);
    assert(local_keys(k1) == Seq::<Seq<char>>::empty());
    assert(same_but(k, k1, "hooks.trustedKey"@));
    lemma_keys_kept(k1, log, 3, fewer, 0, to - 1);
    lemma_parts(k, log, 2, 3, to);
    assert(kept_at(k, log, 2, 3) == k1) by {
        reveal_with_fuel(kept_at, 2);
    }
    lemma_parts(k1, log, 3, to - 1, to);
    let k2 = kept_at(k1, log, 3, to - 1);
    assert(kept_at(k2, log, to - 1, to) == k2) by {
        reveal_with_fuel(kept_at, 2);
    }
    assert(Seq::<Seq<char>>::empty() + fewer.skip(0) =~= fewer);
}

// ---------------------------------------------------------------------------
// Adopting a repository twice.
// ---------------------------------------------------------------------------

/// What becomes of the shim of a hook: nothing where there is none, it is left
/// where a hook of another origin is in its place, and copied otherwise.
pub open spec fn shim_fate(k: Kept, src: Seq<char>, target: Seq<char>) -> Option<bool> {
    if !k.files.contains_key(src) {
        None
    } else {
        Some(
            !((k.files.contains_key(target) || k.dirs.contains(target)) && !holds(
                or_empty(file_at(k, target)),
                SHIM_MARKER@,
            )),
        )
    }
}

/// The path of a hook in a directory.
pub open spec fn hook_path(windows: bool, dir: Seq<char>, i: int) -> Seq<char> {
    path_joined(windows, dir, known_hooks()[i])
}

/// What becomes of the shim of the `i`-th hook.
pub open spec fn fate(
    windows: bool,
    k: Kept,
    from: Seq<char>,
    to: Seq<char>,
    i: int,
) -> Option<bool> {
    shim_fate(k, hook_path(windows, from, i), hook_path(windows, to, i))
}

/// The hooks from the `i`-th on that have the given fate.
pub open spec fn hooks_fated(
    windows: bool,
    k: Kept,
    from: Seq<char>,
    to: Seq<char>,
    copied: bool,
    i: int,
) -> Seq<Seq<char>>
    decreases known_hooks().len() - i,
{
    if i >= known_hooks().len() {
        seq![]
    } else {
        (if fate(windows, k, from, to, i) == Some(copied) {
            seq![known_hooks()[i]]
        } else {
            seq![]
        }) + hooks_fated(windows, k, from, to, copied, i + 1)
    }
}

/// Whether the templates and the hooks of a repository are different files.
pub open spec fn apart(windows: bool, from: Seq<char>, to: Seq<char>) -> bool {
    forall|i: int, j: int|
        0 <= i < known_hooks().len() && 0 <= j < known_hooks().len() ==> #[trigger] hook_path(
            windows,
            from,
            i,
        ) != #[trigger] hook_path(windows, to, j)
}

/// The hooks of a directory are different files.
pub proof fn lemma_hook_paths(windows: bool, dir: Seq<char>, i: int, j: int)
    requires
        0 <= i < known_hooks().len(),
        0 <= j < known_hooks().len(),
        i != j,
    ensures
        hook_path(windows, dir, i) != hook_path(windows, dir, j),
{
    lemma_hooks_differ();
    lemma_joined_differs(windows, dir, known_hooks()[i], known_hooks()[j]);
}

/// What the world keeps once the shim of a hook is through.
pub open spec fn with_shim(k: Kept, src: Seq<char>, target: Seq<char>) -> Kept {
    if shim_fate(k, src, target) == Some(true) {
        Kept {
            files: k.files.insert(target, k.files[src]),
            executable: k.executable.insert(target),
            ..k
        }
    } else {
        k
    }
}

/// Copying a shim does what becomes of it.
proof fn lemma_shim_told(
    k: Kept,
    log: Seq<Exchange>,
    at: int,
    src: Seq<char>,
    target: Seq<char>,
    copied: Option<bool>,
    to: int,
)
    requires
        0 <= at,
        play_copy_shim(log, at, src, target) == Outcome::Done(copied, to),
    ensures
        at <= to <= log.len(),
        honest(k, log, at, to) ==> copied == shim_fate(k, src, target) && kept_at(k, log, at, to)
            == with_shim(k, src, target),
{
    assert(texts(log[at].request.words@) == seq![src]);
    assert(texts(log[at].request.words@)[0] == src);
    reveal_with_fuel(kept_at, 6);
    reveal_with_fuel(honest, 6);
    if copied is Some {
        assert(texts(log[at + 1].request.words@) == seq![target]);
        assert(texts(log[at + 1].request.words@)[0] == target);
        if log[at + 1].reply == Reply::Flag(true) {
            assert(texts(log[at + 2].request.words@) == seq![target]);
            assert(texts(log[at + 2].request.words@)[0] == target);
            if copied == Some(true) {
                assert(texts(log[at + 3].request.words@) == seq![src, target]);
                assert(texts(log[at + 3].request.words@)[0] == src);
                assert(texts(log[at + 3].request.words@)[1] == target);
                assert(texts(log[at + 4].request.words@) == seq![target]);
                assert(texts(log[at + 4].request.words@)[0] == target);
                assert(kept_at(k, log, at, to).executable =~= k.executable.insert(target));
            }
        } else {
            assert(texts(log[at + 2].request.words@) == seq![src, target]);
            assert(texts(log[at + 2].request.words@)[0] == src);
            assert(texts(log[at + 2].request.words@)[1] == target);
            assert(texts(log[at + 3].request.words@) == seq![target]);
            assert(texts(log[at + 3].request.words@)[0] == target);
            assert(kept_at(k, log, at, to).executable =~= k.executable.insert(target));
        }
    }
}

/// Whether a path is that of a hook in a directory.
pub open spec fn is_hook(windows: bool, dir: Seq<char>, path: Seq<char>) -> bool {
    exists|j: int| 0 <= j < known_hooks().len() && path == #[trigger] hook_path(windows, dir, j)
}

/// Whether one world is another once the shims before the `i`-th are through.
spec fn on_the_way(
    windows: bool,
    k: Kept,
    now: Kept,
    from: Seq<char>,
    to: Seq<char>,
    i: int,
) -> bool {
    &&& now.dirs == k.dirs
    &&& forall|j: int|
        0 <= j < known_hooks().len() ==> file_at(
            now,
            #[trigger] hook_path(windows, from, j),
        ) == file_at(
            k,
            hook_path(windows, from, j),
        )
    &&& forall|j: int|
        0 <= j < known_hooks().len() ==> file_at(
            now,
            #[trigger] hook_path(windows, to, j),
        ) == (if j < i
            && fate(windows, k, from, to, j) == Some(true) {
            file_at(k, hook_path(windows, from, j))
        } else {
            file_at(k, hook_path(windows, to, j))
        })
    &&& forall|path: Seq<char>|
        !is_hook(windows, to, path) ==> #[trigger] file_at(now, path) == file_at(k, path)
    &&& forall|j: int|
        0 <= j < known_hooks().len() ==> now.executable.contains(
            #[trigger] hook_path(windows, to, j),
        ) == (j < i && fate(windows, k, from, to, j) == Some(true) || k.executable.contains(
            hook_path(windows, to, j),
        ))
    &&& forall|path: Seq<char>|
        !is_hook(windows, to, path) ==> #[trigger] now.executable.contains(path)
            == k.executable.contains(path)
}

/// Copying one more shim is one step on the way.
proof fn lemma_shim_step(
    windows: bool,
    k: Kept,
    now: Kept,
    from: Seq<char>,
    to: Seq<char>,
    i: int,
)
    requires
        0 <= i < known_hooks().len(),
        apart(windows, from, to),
        on_the_way(windows, k, now, from, to, i),
    ensures
        shim_fate(now, hook_path(windows, from, i), hook_path(windows, to, i)) == fate(
            windows,
            k,
            from,
            to,
            i,
        ),
        on_the_way(
            windows,
            k,
            with_shim(now, hook_path(windows, from, i), hook_path(windows, to, i)),
            from,
            to,
            i + 1,
        ),
{
    let src = hook_path(windows, from, i);
    let target = hook_path(windows, to, i);
    let then = with_shim(now, src, target);
    assert(shim_fate(now, src, target) == fate(windows, k, from, to, i));
    assert(target == hook_path(windows, to, i));
    assert(is_hook(windows, to, target));
    assert forall|path: Seq<char>| !is_hook(windows, to, path) implies
        #[trigger] file_at(then, path) == file_at(k, path) by {
        assert(file_at(now, path) == file_at(k, path));
    }
    assert forall|path: Seq<char>| !is_hook(windows, to, path) implies
        #[trigger] then.executable.contains(path) == k.executable.contains(
        path,
    ) by {
        assert(now.executable.contains(path) == k.executable.contains(path));
    }
    assert forall|j: int| 0 <= j < known_hooks().len() implies
        then.executable.contains(#[trigger] hook_path(windows, to, j)) == (j < i + 1
        && fate(windows, k, from, to, j) == Some(true) || k.executable.contains(
        hook_path(windows, to, j),
    )) by {
        if j != i {
            lemma_hook_paths(windows, to, i, j);
        }
    }
    assert forall|j: int| 0 <= j < known_hooks().len() implies file_at(
        then,
        #[trigger] hook_path(windows, from, j),
    ) == file_at(k, hook_path(windows, from, j)) by {
        assert(hook_path(windows, from, j) != target);
    }
    assert forall|j: int| 0 <= j < known_hooks().len() implies file_at(
        then,
        #[trigger] hook_path(windows, to, j),
    ) == (if j < i + 1 && fate(windows, k, from, to, j) == Some(true) {
        file_at(k, hook_path(windows, from, j))
    } else {
        file_at(k, hook_path(windows, to, j))
    }) by {
        if j != i {
            lemma_hook_paths(windows, to, i, j);
        }
    }
}

/// Copying the shims does what becomes of each.
proof fn lemma_shims_told(
    windows: bool,
    k: Kept,
    now: Kept,
    log: Seq<Exchange>,
    at: int,
    from: Seq<char>,
    to: Seq<char>,
    i: int,
    installed: Seq<Seq<char>>,
    skipped: Seq<Seq<char>>,
    end: int,
)
    requires
        0 <= at <= log.len(),
        0 <= i <= known_hooks().len(),
        apart(windows, from, to),
        on_the_way(windows, k, now, from, to, i),
        play_copy_shims(windows, log, at, from, to, i, installed, skipped) is Done,
        play_copy_shims(windows, log, at, from, to, i, installed, skipped)->Done_1 == end,
    ensures
        at <= end <= log.len(),
        honest(now, log, at, end) ==> play_copy_shims(
            windows,
            log,
            at,
            from,
            to,
            i,
            installed,
            skipped,
        ) == Outcome::Done(
            (
                installed + hooks_fated(windows, k, from, to, true, i),
                skipped + hooks_fated(windows, k, from, to, false, i),
            ),
            end,
        ) && on_the_way(
            windows,
            k,
            kept_at(now, log, at, end),
            from,
            to,
            known_hooks().len() as int,
        ),
    decreases known_hooks().len() - i,
{
    if i >= known_hooks().len() {
        assert(installed + hooks_fated(windows, k, from, to, true, i) =~= installed);
        assert(skipped + hooks_fated(windows, k, from, to, false, i) =~= skipped);
    } else {
        let hook = known_hooks()[i];
        let src = hook_path(windows, from, i);
        let target = hook_path(windows, to, i);
        match play_copy_shim(log, at, src, target) {
            Outcome::Done(copied, next) => {
                lemma_shim_told(now, log, at, src, target, copied, next);
                let then = with_shim(now, src, target);
                lemma_shim_step(windows, k, now, from, to, i);
                let installed2 = if copied == Some(true) {
                    installed.push(hook)
                } else {
                    installed
                };
                let skipped2 = if copied == Some(false) {
                    skipped.push(hook)
                } else {
                    skipped
                };
                lemma_shims_told(
                    windows,
                    k,
                    then,
                    log,
                    next,
                    from,
                    to,
                    i + 1,
                    installed2,
                    skipped2,
                    end,
                );
                lemma_parts(now, log, at, next, end);
                if honest(now, log, at, end) {
                    assert(installed2 + hooks_fated(windows, k, from, to, true, i + 1) =~= installed
                        + hooks_fated(windows, k, from, to, true, i));
                    assert(skipped2 + hooks_fated(windows, k, from, to, false, i + 1) =~= skipped
                        + hooks_fated(windows, k, from, to, false, i));
                }
            },
            _ => {},
        }
    }
}

/// Whether every shim that is to be copied has been.
pub open spec fn settled(windows: bool, k: Kept, from: Seq<char>, to: Seq<char>) -> bool {
    forall|j: int|
        0 <= j < known_hooks().len() && #[trigger] fate(
            windows,
            k,
            from,
            to,
            j,
        ) == Some(true) ==> file_at(
            k,
            hook_path(windows, to, j),
        ) == file_at(k, hook_path(windows, from, j)) && k.executable.contains(
            hook_path(windows, to, j),
        )
}

/// Where every shim has been copied, copying them again changes nothing.
proof fn lemma_settled(
    windows: bool,
    k: Kept,
    log: Seq<Exchange>,
    at: int,
    from: Seq<char>,
    to: Seq<char>,
    i: int,
    installed: Seq<Seq<char>>,
    skipped: Seq<Seq<char>>,
    end: int,
)
    requires
        0 <= at <= log.len(),
        0 <= i <= known_hooks().len(),
        settled(windows, k, from, to),
        play_copy_shims(windows, log, at, from, to, i, installed, skipped) is Done,
        play_copy_shims(windows, log, at, from, to, i, installed, skipped)->Done_1 == end,
    ensures
        at <= end <= log.len(),
        honest(k, log, at, end) ==> kept_at(k, log, at, end) == k,
    decreases known_hooks().len() - i,
{
    if i < known_hooks().len() {
        let src = hook_path(windows, from, i);
        let target = hook_path(windows, to, i);
        match play_copy_shim(log, at, src, target) {
            Outcome::Done(copied, next) => {
                lemma_shim_told(k, log, at, src, target, copied, next);
                if fate(windows, k, from, to, i) == Some(true) {
                    assert(k.files.insert(target, k.files[src]) =~= k.files);
                    assert(k.executable.insert(target) =~= k.executable);
                }
                assert(with_shim(k, src, target) == k);
                let hook = known_hooks()[i];
                lemma_settled(
                    windows,
                    k,
                    log,
                    next,
                    from,
                    to,
                    i + 1,
                    if copied == Some(true) {
                        installed.push(hook)
                    } else {
                        installed
                    },
                    if copied == Some(false) {
                        skipped.push(hook)
                    } else {
                        skipped
                    },
                    end,
                );
                lemma_parts(k, log, at, next, end);
            },
            _ => {},
        }
    }
}

/// The same fates make for the same hooks.
proof fn lemma_same_fates(
    windows: bool,
    k: Kept,
    k2: Kept,
    from: Seq<char>,
    to: Seq<char>,
    copied: bool,
    i: int,
)
    requires
        0 <= i,
        forall|j: int|
            0 <= j < known_hooks().len() ==> #[trigger] fate(windows, k2, from, to, j) == fate(
                windows,
                k,
                from,
                to,
                j,
            ),
    ensures
        hooks_fated(windows, k2, from, to, copied, i) == hooks_fated(
            windows,
            k,
            from,
            to,
            copied,
            i,
        ),
    decreases known_hooks().len() - i,
{
    if i < known_hooks().len() {
        lemma_same_fates(windows, k, k2, from, to, copied, i + 1);
    }
}

/// Adopting a repository installs the shims of all hooks that have one, except where
/// a hook of another origin is in their place. A hook whose shim is installed has the
/// text of the template afterwards, and may be run; every other one, and every other
/// file, is as it was. Doing it once more changes nothing, and reports the same. The
/// templates are shims, and not the hooks of the repository themselves.
pub proof fn law_adopting_twice(
    windows: bool,
    k: Kept,
    log: Seq<Exchange>,
    at: int,
    end: int,
    log2: Seq<Exchange>,
    at2: int,
    end2: int,
    from: Seq<char>,
    to: Seq<char>,
)
    requires
        0 <= at <= log.len(),
        0 <= at2 <= log2.len(),
        apart(windows, from, to),
        forall|j: int|
            0 <= j < known_hooks().len() && k.files.contains_key(
                #[trigger] hook_path(windows, from, j),
            ) ==> holds(k.files[hook_path(windows, from, j)], SHIM_MARKER@),
        play_copy_shims(windows, log, at, from, to, 0, seq![], seq![]) is Done,
        play_copy_shims(windows, log, at, from, to, 0, seq![], seq![])->Done_1 == end,
        honest(k, log, at, end),
        play_copy_shims(windows, log2, at2, from, to, 0, seq![], seq![]) is Done,
        play_copy_shims(windows, log2, at2, from, to, 0, seq![], seq![])->Done_1 == end2,
        honest(kept_at(k, log, at, end), log2, at2, end2),
    ensures
        play_copy_shims(windows, log, at, from, to, 0, seq![], seq![]) == Outcome::Done(
            (
                hooks_fated(windows, k, from, to, true, 0),
                hooks_fated(windows, k, from, to, false, 0),
            ),
            end,
        ),
        forall|j: int|
            0 <= j < known_hooks().len() ==> file_at(
                kept_at(k, log, at, end),
                #[trigger] hook_path(windows, to, j),
            ) == (if fate(windows, k, from, to, j) == Some(true) {
                file_at(k, hook_path(windows, from, j))
            } else {
                file_at(k, hook_path(windows, to, j))
            }),
        forall|path: Seq<char>|
            !is_hook(windows, to, path) ==> #[trigger] file_at(kept_at(k, log, at, end), path)
                == file_at(k, path),
        forall|j: int|
            0 <= j < known_hooks().len() ==> kept_at(k, log, at, end).executable.contains(
                #[trigger] hook_path(windows, to, j),
            ) == (fate(windows, k, from, to, j) == Some(true) || k.executable.contains(
                hook_path(windows, to, j),
            )),
        kept_at(kept_at(k, log, at, end), log2, at2, end2) == kept_at(k, log, at, end),
        play_copy_shims(windows, log2, at2, from, to, 0, seq![], seq![])->Done_0 == play_copy_shims(
            windows,
            log,
            at,
            from,
            to,
            0,
            seq![],
            seq![],
        )->Done_0,
{
    let none = Seq::<Seq<char>>::empty();
    let k2 = kept_at(k, log, at, end);
    lemma_shims_told(windows, k, k, log, at, from, to, 0, none, none, end);
    assert(none + hooks_fated(windows, k, from, to, true, 0) =~= hooks_fated(
        windows,
        k,
        from,
        to,
        true,
        0,
    ));
    assert(none + hooks_fated(windows, k, from, to, false, 0) =~= hooks_fated(
        windows,
        k,
        from,
        to,
        false,
        0,
    ));
    assert forall|j: int| 0 <= j < known_hooks().len() implies #[trigger] fate(
        windows,
        k2,
        from,
        to,
        j,
    ) == fate(windows, k, from, to, j) by {
        assert(file_at(k2, hook_path(windows, from, j)) == file_at(k, hook_path(windows, from, j)));
        assert(file_at(
            k2,
            hook_path(windows, to, j),
        ) == (if fate(windows, k, from, to, j) == Some(true) {
            file_at(k, hook_path(windows, from, j))
        } else {
            file_at(k, hook_path(windows, to, j))
        }));
    }
    assert(settled(windows, k2, from, to)) by {
        assert forall|j: int|
            0 <= j < known_hooks().len() && #[trigger] fate(
                windows,
                k2,
                from,
                to,
                j,
            ) == Some(true) implies
            file_at(k2, hook_path(windows, to, j)) == file_at(k2, hook_path(windows, from, j))
                && k2.executable.contains(hook_path(windows, to, j)) by {
            assert(fate(windows, k, from, to, j) == Some(true));
        }
    }
    lemma_settled(windows, k2, log2, at2, from, to, 0, none, none, end2);
    lemma_shims_told(windows, k2, k2, log2, at2, from, to, 0, none, none, end2);
    lemma_same_fates(windows, k, k2, from, to, true, 0);
    lemma_same_fates(windows, k, k2, from, to, false, 0);
    assert(none + hooks_fated(windows, k2, from, to, true, 0) =~= hooks_fated(
        windows,
        k,
        from,
        to,
        true,
        0,
    ));
    assert(none + hooks_fated(windows, k2, from, to, false, 0) =~= hooks_fated(
        windows,
        k,
        from,
        to,
        false,
        0,
    ));
}

// ---------------------------------------------------------------------------
// Trusting keys by the org-wide policy.
// ---------------------------------------------------------------------------

/// Trusting a key by the policy writes the policy with the key.
proof fn lemma_trusted_globally(
    windows: bool,
    k: Kept,
    log: Seq<Exchange>,
    key: Seq<char>,
    to: int,
)
    requires
        play_trust_globally(windows, log, 0, key) == Outcome::Done((), to),
        honest(k, log, 0, to),
        with_key(policy_of(windows, k), key) matches Ok(doc) ==> prints_well(doc),
    ensures
        with_key(policy_of(windows, k), key) is Ok,
        policy_of(windows, kept_at(k, log, 0, to)) == with_key(policy_of(windows, k), key)->Ok_0,
        kept_at(k, log, 0, to).config == k.config,
        kept_at(k, log, 0, to).env == k.env,
        home_of(k) matches Some(h) && forall|path: Seq<char>|
            path != path_joined(windows, h, policy_place()) ==> #[trigger] file_at(
                kept_at(k, log, 0, to),
                path,
            ) == file_at(k, path),
{
    match play_policy(windows, log, 0) {
        Outcome::Done(doc, a) => {
            lemma_policy_told(windows, k, log, 0, doc, a);
            let new = with_key(doc, key)->Ok_0;
            assert(play_write_policy(windows, log, a, new) is Done);
            match play_home(log, a) {
                Outcome::Done(h, b) => {
                    lemma_home_told(k, log, a, h, b);
                    let dir = path_joined(windows, h, ".config/git-hooks"@);
                    assert(texts(log[b].request.words@) == seq![dir]);
                    let path = path_joined(windows, h, policy_place());
                    let text = toml_printed(new)->Some_0;
                    let w = texts(log[b + 1].request.words@);
                    assert(w == seq![path, text]);
                    assert(w[0] == path && w[1] == text);
                    match play_home(log, b + 2) {
                        Outcome::Done(h2, c) => {
                            lemma_home_told(k, log, b + 2, h2, c);
                            assert(to == c + 1);
                            assert(idle(log[c]));
                            lemma_parts(k, log, 0, a, to);
                            lemma_idles(k, log, 0, a);
                            lemma_parts(k, log, a, b, to);
                            lemma_idles(k, log, a, b);
                            assert(policy_of(windows, k) == doc);
                            assert(home_of(k) == Some(h));
                            let k1 = kept_after(k, log[b]);
                            let k2 = kept_after(k1, log[b + 1]);
                            lemma_parts(k, log, b, b + 2, to);
                            assert(kept_at(k, log, b, b + 2) == k2) by {
                                reveal_with_fuel(kept_at, 3);
                            }
                            assert(idles(log, b + 2, to));
                            lemma_idles(k2, log, b + 2, to);
                            assert(home_of(k2) == Some(h));
                            assert(file_at(k2, path) == Some(text));
                        },
                        _ => {},
                    }
                },
                _ => {},
            }
        },
        _ => {},
    }
}

/// Trusting a key by the org-wide policy leaves the keys that it trusted, in their
/// order, and this one at their end, unless it was among them; the key is trusted
/// then. Every other entry of the policy, every other file, and the keys that are
/// trusted in the repository stay as they are. Doing it once more leaves the policy
/// as it is.
pub proof fn law_trusting_globally(
    windows: bool,
    k: Kept,
    log: Seq<Exchange>,
    to: int,
    log2: Seq<Exchange>,
    to2: int,
    args: Seq<Seq<char>>,
    key: Seq<char>,
)
    requires
        trust_args(args) == Some((key, true)),
        entries_ordered(policy_of(windows, k)),
        with_key(policy_of(windows, k), key) matches Ok(doc) ==> prints_well(doc),
        play_trust_cmd(windows, log, 0, args) == Outcome::Done((), to),
        honest(k, log, 0, to),
        play_trust_cmd(windows, log2, 0, args) == Outcome::Done((), to2),
        honest(kept_at(k, log, 0, to), log2, 0, to2),
    ensures
        policy_keys(windows, kept_at(k, log, 0, to)) == keys_with(policy_keys(windows, k), key),
        policy_keys(windows, kept_at(k, log, 0, to)).contains(key),
        forall|other: Seq<char>|
            other != "trusted_keys"@ ==> #[trigger] entry(
                policy_of(windows, kept_at(k, log, 0, to)),
                other,
            ) == entry(policy_of(windows, k), other),
        home_of(k) matches Some(h) && forall|path: Seq<char>|
            path != path_joined(windows, h, policy_place()) ==> #[trigger] file_at(
                kept_at(k, log, 0, to),
                path,
            ) == file_at(k, path),
        local_keys(kept_at(k, log, 0, to)) == local_keys(k),
        policy_of(windows, kept_at(kept_at(k, log, 0, to), log2, 0, to2)) == policy_of(
            windows,
            kept_at(k, log, 0, to),
        ),
{
    lemma_trusted_globally(windows, k, log, key, to);
    law_trust_keeps_the_rest(policy_of(windows, k), key);
    let k2 = kept_at(k, log, 0, to);
    if !policy_keys(windows, k).contains(key) {
        let n = policy_keys(windows, k).len() as int;
        assert(policy_keys(windows, k).push(key)[n] == key);
    }
    lemma_trusted_globally(windows, k2, log2, key, to2);
}

/// A key that is no longer trusted by the policy is not among the keys of the policy, which
/// are otherwise those that they were, and so is its default. Every other file, and the
/// configuration of the repository, is as it was.
pub proof fn law_untrusting_globally(
    windows: bool,
    k: Kept,
    log: Seq<Exchange>,
    to: int,
    args: Seq<Seq<char>>,
    key: Seq<char>,
)
    requires
        trust_args(args) == Some((key, true)),
        entries_ordered(policy_of(windows, k)),
        prints_well(without_key(policy_of(windows, k), key)),
        play_untrust_cmd(windows, log, 0, args) == Outcome::Done((), to),
        honest(k, log, 0, to),
    ensures
        policy_of(windows, kept_at(k, log, 0, to)) == without_key(policy_of(windows, k), key),
        forall|other: Seq<char>| #[trigger]
            policy_keys(windows, kept_at(k, log, 0, to)).contains(other) <==> other != key
                && policy_keys(windows, k).contains(other),
        declines(policy_of(windows, kept_at(k, log, 0, to))) == declines(policy_of(windows, k)),
        home_of(k) matches Some(h) && forall|path: Seq<char>|
            path != path_joined(windows, h, policy_place()) ==> #[trigger] file_at(
                kept_at(k, log, 0, to),
                path,
            ) == file_at(k, path),
        kept_at(k, log, 0, to).config == k.config,
{
    match play_policy(windows, log, 0) {
        Outcome::Done(doc, a) => {
            lemma_policy_told(windows, k, log, 0, doc, a);
            let new = without_key(doc, key);
            assert(play_write_policy(windows, log, a, new) is Done);
            match play_home(log, a) {
                Outcome::Done(h, b) => {
                    lemma_home_told(k, log, a, h, b);
                    let dir = path_joined(windows, h, ".config/git-hooks"@);
                    assert(texts(log[b].request.words@) == seq![dir]);
                    let path = path_joined(windows, h, policy_place());
                    let text = toml_printed(new)->Some_0;
                    let w = texts(log[b + 1].request.words@);
                    assert(w == seq![path, text]);
                    assert(w[0] == path && w[1] == text);
                    assert(to == b + 3);
                    lemma_parts(k, log, 0, a, to);
                    lemma_idles(k, log, 0, a);
                    lemma_parts(k, log, a, b, to);
                    lemma_idles(k, log, a, b);
                    assert(policy_of(windows, k) == doc);
                    assert(home_of(k) == Some(h));
                    let k2 = kept_after(kept_after(k, log[b]), log[b + 1]);
                    assert(kept_at(k, log, b, to) == k2) by {
                        reveal_with_fuel(kept_at, 4);
                    }
                    assert(home_of(k2) == Some(h));
                    assert(file_at(k2, path) == Some(text));
                },
                _ => {},
            }
        },
        _ => {},
    }
    law_not_trusted_after_untrust(policy_of(windows, k), key);
}

// ---------------------------------------------------------------------------
// Signing, and checking the signature.
// ---------------------------------------------------------------------------

/// What is signed is all that is covered but the files of the signature, and the
/// signature is what `ssh-keygen` made of that text; it is kept under `trust/`.
/// Nothing else that the world keeps is changed but for that directory.
pub proof fn law_signing_signs_what_is_covered(
    windows: bool,
    k: Kept,
    log: Seq<Exchange>,
    at: int,
    root: Seq<char>,
    key: Seq<char>,
    files: Seq<Seq<char>>,
    mid: int,
    to: int,
)
    requires
        0 <= at <= log.len(),
        good_hash(k.hash),
        play_githooks_dir_files(windows, log, at + 1, root) == Outcome::Done(files, mid),
        all_there(k, files),
        play_make_signature(windows, log, at, root, key) == Outcome::Done((), to),
        honest(k, log, at, to),
    ensures
        at <= to - 3 < log.len(),
        log[to - 3].request.op == Op::SshFeed,
        texts(log[to - 3].request.words@) == sign_request(
            key,
            text_covered(k.hash, covered(windows, k, root, files, true)),
        ),
        log[to - 3].reply matches Reply::Ran(Ok(f)) && succeeded(f) && kept_at(k, log, at, to)
            == (Kept {
            files: k.files.insert(sig_path(windows, root), said(f)),
            dirs: with_dirs(k, trust_path(windows, root)),
            ..k
        }),
{
    match play_canonical_content(windows, log, at, root, true) {
        Outcome::Done(content, b) => {
            lemma_canonical_told(windows, k, log, at, root, true, files, mid, content, b);
            assert(to == b + 3);
            lemma_parts(k, log, at, b, to);
            lemma_idles(k, log, at, b);
            let f = log[b].reply->Ran_0->Ok_0;
            let w = texts(log[b + 1].request.words@);
            assert(w == seq![trust_path(windows, root)]);
            assert(w[0] == trust_path(windows, root));
            let w2 = texts(log[b + 2].request.words@);
            assert(w2 == seq![sig_path(windows, root), said(f)]);
            assert(w2[0] == sig_path(windows, root) && w2[1] == said(f));
            reveal_with_fuel(kept_at, 4);
        },
        _ => {},
    }
}

/// Whether `ssh-keygen`, where it is asked whether a principal signed a text, tells
/// the truth about a signature that one principal made of one text with one key.
pub open spec fn checks(
    e: Exchange,
    principal: Seq<char>,
    fingerprint: Seq<char>,
    signed: Seq<char>,
) -> bool {
    let w = texts(e.request.words@);
    e.request.op == Op::SshFeed && w.len() > 6 && w[2] == "verify"@ ==> (e.reply matches Reply::Ran(
        Ok(f),
    ) && (succeeded(f) <==> w[0] == signed && w[6] == principal) && (succeeded(f) ==> good_key(
        said(f),
    ) == fingerprint))
}

/// Trying principals on a signature finds the one that made it, if the text is the
/// one that was signed, and none otherwise.
proof fn lemma_tried(
    windows: bool,
    log: Seq<Exchange>,
    at: int,
    signers: Seq<char>,
    sig: Seq<char>,
    content: Seq<char>,
    list: Seq<Seq<char>>,
    i: int,
    principal: Seq<char>,
    fingerprint: Seq<char>,
    signed: Seq<char>,
)
    requires
        0 <= at <= log.len(),
        0 <= i,
        forall|j: int|
            0 <= j < log.len() ==> checks(#[trigger] log[j], principal, fingerprint, signed),
    ensures
        play_try_principals(log, at, signers, sig, content, list, i) matches Outcome::Done(
            result,
            to,
        ) ==> idles(log, at, to) && (content != signed ==> result == Signed::Invalid) && (content
            == signed && (exists|j: int| i <= j < list.len() && #[trigger] list[j] == principal)
            ==> result == Signed::Valid(principal, fingerprint)),
    decreases list.len() - i,
{
    if i < list.len() {
        match play_ssh_verify(log, at, signers, list[i], sig, content) {
            Outcome::Done(found, next) => {
                let w = texts(log[at].request.words@);
                assert(w == verify_request(signers, list[i], sig, content));
                assert(w[0] == content && w[2] == "verify"@ && w[6] == list[i]);
                assert(checks(log[at], principal, fingerprint, signed));
                if found is None {
                    lemma_tried(
                        windows,
                        log,
                        next,
                        signers,
                        sig,
                        content,
                        list,
                        i + 1,
                        principal,
                        fingerprint,
                        signed,
                    );
                }
            },
            _ => {},
        }
    }
}

/// A signature is valid as long as all that is covered but the files of the signature
/// is what it was when it was signed: it is that of the principal, and of the key,
/// that made it. Once a byte of the configuration or of such a file, a name, or the
/// set of files is another, the signature is invalid, whichever keys are trusted.
/// `files` were there, in the world `k`, when it was made of `k`, and `files2` are in
/// the world `k2` in which it is checked. Names keep to one line.
pub proof fn law_signature_holds_for_what_was_signed(
    windows: bool,
    k: Kept,
    files: Seq<Seq<char>>,
    k2: Kept,
    log: Seq<Exchange>,
    at: int,
    root: Seq<char>,
    files2: Seq<Seq<char>>,
    mid: int,
    principal: Seq<char>,
    fingerprint: Seq<char>,
    to: int,
    result: Signed,
)
    requires
        0 <= at <= log.len(),
        good_hash(k.hash),
        k2.hash == k.hash,
        k.files.contains_key(path_joined(windows, root, CONFIG_FILE@)),
        k2.files.contains_key(path_joined(windows, root, CONFIG_FILE@)),
        all_there(k2, files2),
        plain_names(windows, root, files),
        plain_names(windows, root, files2),
        k2.files.contains_key(sig_path(windows, root)),
        file_at(
            k2,
            signers_path(windows, root),
        ) matches Some(text) && principals(text).contains(principal),
        play_githooks_dir_files(windows, log, at + 3, root) == Outcome::Done(files2, mid),
        play_signature_status(windows, log, at, root) == Outcome::Done(result, to),
        honest(k2, log, at, to),
        forall|j: int|
            0 <= j < log.len() ==> checks(
                #[trigger] log[j],
                principal,
                fingerprint,
                text_covered(k.hash, covered(windows, k, root, files, true)),
            ),
    ensures
        result == (if covered(windows, k2, root, files2, true) == covered(
            windows,
            k,
            root,
            files,
            true,
        ) {
            Signed::Valid(principal, fingerprint)
        } else {
            Signed::Invalid
        }),
{
    let signed = text_covered(k.hash, covered(windows, k, root, files, true));
    let sig = sig_path(windows, root);
    let signers = signers_path(windows, root);
    assert(texts(log[at].request.words@) == seq![sig]);
    assert(texts(log[at].request.words@)[0] == sig);
    if play_signature_status(windows, log, at, root) is Done && at < to {
        lemma_parts(k2, log, at, at + 1, to);
        assert(kept_at(k2, log, at, at + 1) == k2) by {
            reveal_with_fuel(kept_at, 2);
        }
        assert(texts(log[at + 1].request.words@) == seq![signers]);
        assert(texts(log[at + 1].request.words@)[0] == signers);
    }
    match play_canonical_content(windows, log, at + 2, root, true) {
        Outcome::Done(content, b) => {
            lemma_canonical_told(windows, k2, log, at + 2, root, true, files2, mid, content, b);
            match play_allowed_principals(log, b, signers) {
                Outcome::Done(list, c) => {
                    lemma_tried(
                        windows,
                        log,
                        c,
                        signers,
                        sig,
                        content,
                        list,
                        0,
                        principal,
                        fingerprint,
                        signed,
                    );
                    lemma_parts(k2, log, at, at + 2, to);
                    lemma_idles(k2, log, at, at + 2);
                    lemma_parts(k2, log, at + 2, b, to);
                    lemma_idles(k2, log, at + 2, b);
                    assert(tells(k2, log[b]));
                    assert(texts(log[b].request.words@) == seq![signers]);
                    assert(texts(log[b].request.words@)[0] == signers);
                    assert(list.contains(principal));
                    law_canonical_text_tells_worlds_apart(
                        windows,
                        k2,
                        root,
                        files2,
                        k,
                        root,
                        files,
                        true,
                    );
                },
                _ => {},
            }
        },
        _ => {},
    }
}

/// Whether a principal can be listed: a word without a comma, that does not begin a
/// comment.
pub open spec fn fair_principal(principal: Seq<char>) -> bool {
    is_word(principal) && !principal.contains(',') && principal[0] != '#'
}

/// The principal of a line.
proof fn lemma_line_principal(principal: Seq<char>, pubkey: Seq<char>, line: Seq<char>)
    requires
        fair_principal(principal),
        is_word(pubkey) || pubkey.len() > 0 && !is_space(pubkey.last()),
        trimmed(line) == principal + " "@ + pubkey,
    ensures
        line_principals(line) == seq![principal],
{
    reveal_strlit(" ");
    let t = principal + " "@ + pubkey;
    let n = principal.len() as int;
    assert(t[0] == principal[0]);
    assert(!is_space(principal[0]));
    assert(trimmed_start(t) == t);
    assert(t[n] == ' ');
    lemma_before_space(t);
    let b = before_space(t);
    if b < n {
        assert(!is_space(principal[b]));
        assert(t[b] == principal[b]);
    }
    if b > n {
        assert(!is_space(t[n]));
    }
    assert(t.take(n) =~= principal);
    assert(words_of(t)[0] == principal);
    lemma_before(principal, ',');
    if before(principal, ',') < n {
        assert(principal.contains(principal[before(principal, ',')]));
    }
    let list = seq![principal];
    assert(split_at_char(principal, ',') == list);
    assert(not_empty(list) =~= list) by {
        reveal_with_fuel(Seq::filter, 2);
        assert(list.drop_last() =~= seq![]);
        assert(list.last() == principal);
    }
}

/// A principal of one of several lines is among those of all lines.
proof fn lemma_among_principals(parts: Seq<Seq<Seq<char>>>, i: int, principal: Seq<char>)
    requires
        0 <= i < parts.len(),
        parts[i].contains(principal),
    ensures
        concat(parts).contains(principal),
    decreases parts.len(),
{
    let fewer = parts.drop_last();
    let a = concat(fewer);
    let b = parts.last();
    if i < fewer.len() {
        assert(fewer[i] == parts[i]);
        lemma_among_principals(fewer, i, principal);
        let j = choose|j: int| 0 <= j < a.len() && a[j] == principal;
        assert((a + b)[j] == principal);
    } else {
        let j = choose|j: int| 0 <= j < b.len() && b[j] == principal;
        assert((a + b)[a.len() + j] == principal);
    }
}

/// Signing sees to it that the signer is listed: afterwards their line is there, and
/// they are among those who may sign. Every line that was there still is.
pub proof fn law_signer_is_listed(
    k: Kept,
    log: Seq<Exchange>,
    at: int,
    path: Seq<char>,
    principal: Seq<char>,
    pubkey: Seq<char>,
    to: int,
)
    requires
        0 <= at,
        fair_principal(principal),
        pubkey.len() > 0 && !is_space(pubkey.last()) && !pubkey.contains('\n'),
        or_empty(file_at(k, path)).len() > 0 ==> or_empty(file_at(k, path)).last() != '\r',
        play_list_signer(log, at, path, principal + " "@ + pubkey) == Outcome::Done((), to),
        honest(k, log, at, to),
    ensures
        file_at(kept_at(k, log, at, to), path) matches Some(text) && principals(text).contains(
            principal,
        ) && line_known(text, principal + " "@ + pubkey) && (lines_of(text) == lines_of(
            or_empty(file_at(k, path)),
        ) || lines_of(text) == lines_of(or_empty(file_at(k, path))).push(
            principal + " "@ + pubkey,
        )),
{
    reveal_strlit(" ");
    let line = principal + " "@ + pubkey;
    let old = or_empty(file_at(k, path));
    let k2 = kept_at(k, log, at, to);
    assert(texts(log[at].request.words@) == seq![path]);
    assert(texts(log[at].request.words@)[0] == path);
    assert(tells(k, log[at]));
    assert(line[0] == principal[0]);
    assert(!is_space(principal[0]));
    assert(line.last() == pubkey.last());
    assert(trimmed(line) == line);
    let text = or_empty(file_at(k2, path));
    let i: int = if line_known(old, line) {
        assert(to == at + 1);
        assert(kept_at(k, log, at, to) == k) by {
            reveal_with_fuel(kept_at, 2);
        }
        if file_at(k, path) is None {
            assert(lines_of(old).len() == 0);
        }
        choose|i: int|
            0 <= i < lines_of(old).len() && trimmed(#[trigger] lines_of(old)[i]) == trimmed(line)
    } else {
        assert(to == at + 2);
        let w = texts(log[at + 1].request.words@);
        assert(w == seq![path, line_added(old, line)]);
        assert(w[0] == path && w[1] == line_added(old, line));
        assert(kept_at(k, log, at, to) == kept_after(k, log[at + 1])) by {
            reveal_with_fuel(kept_at, 3);
        }
        assert(!line.contains('\n')) by {
            if line.contains('\n') {
                let j = choose|j: int| 0 <= j < line.len() && line[j] == '\n';
                if j < principal.len() {
                    assert(!is_space(principal[j]));
                } else if j > principal.len() {
                    assert(pubkey[j - principal.len() - 1] == '\n');
                    assert(pubkey.contains('\n'));
                }
            }
        }
        law_signer_gets_a_line(old, line);
        lines_of(old).len() as int
    };
    assert(trimmed(lines_of(text)[i]) == line);
    lemma_line_principal(principal, pubkey, lines_of(text)[i]);
    let ls = lines_of(text);
    let parts = Seq::new(ls.len(), |j: int| line_principals(ls[j]));
    assert(parts[i][0] == principal);
    lemma_among_principals(parts, i, principal);
}

// ---------------------------------------------------------------------------
// Adding a command.
// ---------------------------------------------------------------------------

/// A command that is added to the configuration is there when it is read: at the end
/// of the list of its hook, with every other entry as it was. Whoever adds it has
/// accepted the new content: the decision names the hash of what is there now.
pub proof fn law_added_command_is_accepted(
    windows: bool,
    k: Kept,
    log: Seq<Exchange>,
    hook: Seq<char>,
    cmd: Seq<char>,
    root: Seq<char>,
    root2: Seq<char>,
    files: Seq<Seq<char>>,
    a: int,
    hash: Seq<char>,
    b: int,
    files2: Seq<Seq<char>>,
    c: int,
    to: int,
)
    requires
        good_hash(k.hash),
        with_command(
            entries_of(file_at(k, path_joined(windows, root, CONFIG_FILE@))),
            hook,
            cmd,
        ) matches Ok(
            doc,
        ) ==> prints_well(doc),
        play_need_root(log, 0) == Outcome::Done(root, 1int),
        yields_root(log, 4, root),
        play_githooks_dir_files(windows, log, 7, root) == Outcome::Done(files, a),
        play_consent_hash(windows, log, 4) == Outcome::Done(Some(hash), b),
        yields_root(log, b + 2, root2),
        play_githooks_dir_files(windows, log, b + 3, root2) == Outcome::Done(files2, c),
        play_add(windows, log, 0, hook, cmd) == Outcome::Done((), to),
        honest(k, log, 0, to),
    ensures
        with_command(
            entries_of(file_at(k, path_joined(windows, root, CONFIG_FILE@))),
            hook,
            cmd,
        ) is Ok,
        entries_of(file_at(kept_at(k, log, 0, to), path_joined(windows, root, CONFIG_FILE@)))
            == with_command(
            entries_of(file_at(k, path_joined(windows, root, CONFIG_FILE@))),
            hook,
            cmd,
        )->Ok_0,
        values(kept_at(k, log, 0, to).config, "hooks.consent"@) == seq![verdict(true, hash)],
        all_there(kept_at(k, log, 0, to), files) ==> hash == (k.hash)(
            text_covered(k.hash, covered(windows, kept_at(k, log, 0, to), root, files, false)),
        ),
{
    lemma_options_differ();
    let path = path_joined(windows, root, CONFIG_FILE@);
    let w0 = texts(log[0].request.words@);
    assert(w0 == seq!["rev-parse"@, "--show-toplevel"@]);
    assert(w0[0] == "rev-parse"@);
    assert(idle(log[0]));
    assert(texts(log[1].request.words@) == seq![path]);
    assert(texts(log[1].request.words@)[0] == path);
    assert(idle(log[1]));
    assert(play_record_consent(windows, log, 4, true) is Done);
    match play_record_consent(windows, log, 4, true) {
        Outcome::Done(u, m) => {
            assert(u == ());
            assert(m == to);
        },
        _ => {},
    }
    lemma_consent_told(windows, k, log, 4, root, files, a, hash, b);
    lemma_record_after(windows, log, 4, b, to);
    lemma_parts(k, log, 0, 2, to);
    lemma_idles(k, log, 0, 2);
    assert(tells(k, log[1]));
    let new = with_command(entries_of(file_at(k, path)), hook, cmd)->Ok_0;
    let text = toml_printed(new)->Some_0;
    let w = texts(log[2].request.words@);
    assert(w == seq![path, text]);
    assert(w[0] == path && w[1] == text);
    let k1 = kept_after(k, log[2]);
    lemma_parts(k, log, 2, 4, to);
    assert(kept_at(k, log, 2, 4) == k1) by {
        reveal_with_fuel(kept_at, 3);
    }
    lemma_recorded(windows, k1, log, 4, true, root, files, a, hash, b, root2, files2, c, to);
    let k2 = kept_at(k1, log, 4, to);
    assert(file_at(k1, path) == Some(text));
    lemma_consent_told(windows, k1, log, 4, root, files, a, hash, b);
    lemma_parts(k1, log, 4, b, to);
    if all_there(k2, files) {
        assert(all_there(k1, files));
        lemma_covered_same(windows, k1, k2, root, files, false, 0);
    }
}

/// Recording a decision comes after forming the hash.
pub proof fn lemma_record_after(windows: bool, log: Seq<Exchange>, at: int, b: int, to: int)
    requires
        0 <= at <= b <= log.len(),
        play_consent_hash(windows, log, at) matches Outcome::Done(_, m) && m == b,
        play_record_consent(windows, log, at, true) == Outcome::Done((), to),
    ensures
        b <= to,
{
    match play_repo_root(log, b + 2) {
        Outcome::Done(Some(root), _) => {
            lemma_walk_idles(
                windows,
                log,
                b + 3,
                seq![path_joined(windows, root, crate::config::HOOKS_DIR@)],
                seq![],
            );
            match play_githooks_dir_files(windows, log, b + 3, root) {
                Outcome::Done(files, c) => {
                    lemma_manifest_after(
                        windows,
                        log,
                        c,
                        root,
                        seq![path_joined(windows, root, CONFIG_FILE@)] + files,
                        0,
                    );
                },
                _ => {},
            }
        },
        _ => {},
    }
}

/// Writing the manifest goes on.
proof fn lemma_manifest_after(
    windows: bool,
    log: Seq<Exchange>,
    at: int,
    root: Seq<char>,
    files: Seq<Seq<char>>,
    i: int,
)
    ensures
        play_manifest_from(
            windows,
            log,
            at,
            root,
            files,
            i,
        ) matches Outcome::Done(_, to) ==> at <= to,
    decreases files.len() - i,
{
    if i < files.len() {
        match play_store_object(log, at, files[i]) {
            Outcome::Done(None, next) => {
                lemma_manifest_after(windows, log, next, root, files, i + 1);
            },
            Outcome::Done(Some(blob), next) => {
                lemma_manifest_after(windows, log, next + 1, root, files, i + 1);
            },
            _ => {},
        }
    }
}

/// Where the files are the same, so is what is covered.
proof fn lemma_covered_same(
    windows: bool,
    k: Kept,
    k2: Kept,
    root: Seq<char>,
    files: Seq<Seq<char>>,
    exclude_trust: bool,
    i: int,
)
    requires
        0 <= i,
        k2.files == k.files,
    ensures
        covered_from(windows, k2, root, files, exclude_trust, i) == covered_from(
            windows,
            k,
            root,
            files,
            exclude_trust,
            i,
        ),
    decreases files.len() - i,
{
    if i < files.len() {
        lemma_covered_same(windows, k, k2, root, files, exclude_trust, i + 1);
    }
}

} // verus!
