//! The user's decision about the hooks of a repository: how it is written down,
//! what it says of the content that is there now, and what was accepted.
use crate::config::{at_most_one, CONFIG_FILE};
use crate::content::{
    consent_hash, githooks_dir_files, pair_texts, play_consent_hash, play_githooks_dir_files,
};
use crate::git::{git, git_capture, play_git, play_git_capture, play_repo_root, repo_root};
use crate::paths::{join_path, path_joined, path_rel, rel};
use crate::text::{
    before, cat3, concat, is_space, joined, law_lines_read_back, lemma_before, lemma_trimmed_end,
    lemma_trimmed_line, lines, lines_of, maybe, same, split_once, texts, trimmed, trimmed_start,
};
use crate::world::{
    came_to, captured, goes_on, owned, said, succeeded, Exchange, Finished, Halt, Outcome, Run,
    Stop,
};
use vstd::prelude::*;

verus! {

// ---------------------------------------------------------------------------
// Decisions.
// ---------------------------------------------------------------------------

/// How a decision about content with the given hash is written down.
pub open spec fn verdict(accept: bool, hash: Seq<char>) -> Seq<char> {
    (if accept {
        "accept"@
    } else {
        "decline"@
    }) + ":"@ + hash
}

/// How a decision about content with the given hash is written down.
pub fn verdict_text(accept: bool, hash: &str) -> (r: String)
    ensures
        r@ == verdict(accept, hash@),
{
    if accept {
        cat3("accept", ":", hash)
    } else {
        cat3("decline", ":", hash)
    }
}

/// What a recorded decision says of the content that is there now.
#[derive(Clone, Copy, PartialEq, Eq, Structural, Debug)]
pub enum Decision {
    /// This very content was accepted.
    Accepted,
    /// This very content was declined.
    Declined,
    /// The decision was about other content.
    Changed,
    /// There is no decision.
    Open,
}

/// What the recorded decision `state` says of content with the given hash.
pub open spec fn decision(state: Option<Seq<char>>, hash: Option<Seq<char>>) -> Decision {
    match (state, hash) {
        (Some(s), Some(h)) => if s == verdict(true, h) {
            Decision::Accepted
        } else if s == verdict(false, h) {
            Decision::Declined
        } else {
            Decision::Changed
        },
        (Some(_), None) => Decision::Changed,
        (None, _) => Decision::Open,
    }
}

/// What the recorded decision `state` says of content with the given hash.
pub fn decide(state: &Option<String>, hash: &Option<String>) -> (r: Decision)
    ensures
        r == decision(maybe(*state), maybe(*hash)),
{
    match (state, hash) {
        (Some(s), Some(h)) => if same(s.as_str(), verdict_text(true, h.as_str()).as_str()) {
            Decision::Accepted
        } else if same(s.as_str(), verdict_text(false, h.as_str()).as_str()) {
            Decision::Declined
        } else {
            Decision::Changed
        },
        (Some(_), None) => Decision::Changed,
        (None, _) => Decision::Open,
    }
}

/// What the environment variable for consent decides about content with the
/// given hash: to run, to skip, or nothing.
pub open spec fn env_decision(var: Option<Seq<char>>, hash: Seq<char>) -> Option<bool> {
    match var {
        Some(s) => if s == "accept"@ {
            Some(true)
        } else if s == "decline"@ {
            Some(false)
        } else if s == verdict(true, hash) {
            Some(true)
        } else {
            None
        },
        None => None,
    }
}

/// What the environment variable for consent decides. `accept` and `decline` do
/// so whatever the content; the pinned form `accept:<hash>` only for content
/// with that hash.
pub fn env_verdict(var: &Option<String>, hash: &str) -> (r: Option<bool>)
    ensures
        r == env_decision(maybe(*var), hash@),
{
    match var {
        Some(s) => if same(s.as_str(), "accept") {
            Some(true)
        } else if same(s.as_str(), "decline") {
            Some(false)
        } else if same(s.as_str(), verdict_text(true, hash).as_str()) {
            Some(true)
        } else {
            None
        },
        None => None,
    }
}

/// How `git` is asked for the recorded decision.
pub open spec fn state_query() -> Seq<Seq<char>> {
    seq!["config"@, "--local"@, "hooks.consent"@]
}

/// What asking for the recorded decision comes to.
pub open spec fn play_consent_state(log: Seq<Exchange>, at: int) -> Outcome<Option<Seq<char>>> {
    play_git_capture(log, at, state_query())
}

/// The recorded decision.
pub fn consent_state(run: &mut Run) -> (r: Result<Option<String>, Halt>)
    ensures
        goes_on(*final(run), *old(run)),
        came_to(r, *final(run), play_consent_state(old(run).log@, old(run).at as int)),
{
    let w = owned(vec!["config", "--local", "hooks.consent"]);
    assert(texts(w@) =~= state_query());
    git_capture(run, w)
}

// ---------------------------------------------------------------------------
// The manifest of what was accepted.
// ---------------------------------------------------------------------------

/// How a file and its blob are written down.
pub open spec fn manifest_line(path: Seq<char>, blob: Seq<char>) -> Seq<char> {
    path + "\t"@ + blob
}

/// The file and the blob that a line of the manifest names.
pub open spec fn line_pair(line: Seq<char>) -> Option<(Seq<char>, Seq<char>)> {
    let k = before(line, '\t');
    if k < line.len() {
        Some((line.take(k), line.skip(k + 1)))
    } else {
        None
    }
}

/// The files and their blobs that a manifest names.
pub open spec fn manifest_pairs(text: Seq<char>) -> Seq<(Seq<char>, Seq<char>)> {
    let lines = lines_of(text);
    concat(Seq::new(lines.len(), |i: int| at_most_one(line_pair(lines[i]))))
}

/// The files and their blobs that a manifest names. A line without a tab is
/// passed over.
pub fn parse_manifest(text: &str) -> (r: Vec<(String, String)>)
    ensures
        pair_texts(r@) == manifest_pairs(text@),
{
    let list = lines(text);
    let ghost all = lines_of(text@);
    let ghost found = Seq::new(all.len(), |i: int| at_most_one(line_pair(all[i])));
    let mut out: Vec<(String, String)> = Vec::new();
    let mut i: usize = 0;
    assert(pair_texts(out@) =~= concat(found.take(0)));
    while i < list.len()
        invariant
            i <= list@.len(),
            all == texts(list@),
            found == Seq::new(all.len(), |i: int| at_most_one(line_pair(all[i]))),
            pair_texts(out@) == concat(found.take(i as int)),
        decreases list@.len() - i,
    {
        let ghost seen = out@;
        assert(found.take(i + 1).drop_last() =~= found.take(i as int));
        assert(found[i as int] == at_most_one(line_pair(all[i as int])));
        if let Some(pair) = split_once(list[i].as_str(), '\t') {
            out.push(pair);
            assert(pair_texts(out@) =~= pair_texts(seen).push((pair.0@, pair.1@)));
        }
        assert(pair_texts(out@) =~= concat(found.take(i + 1)));
        i = i + 1;
    }
    assert(found.take(i as int) =~= found);
    out
}

/// What reading the manifest comes to.
pub open spec fn play_read_manifest(log: Seq<Exchange>, at: int) -> Outcome<
    Seq<(Seq<char>, Seq<char>)>,
> {
    match play_git_capture(
        log,
        at,
        seq!["config"@, "--local"@, "--get-all"@, "hooks.consentManifest"@],
    ) {
        Outcome::Stop(s) => Outcome::Stop(s),
        Outcome::Done(Some(text), at) => Outcome::Done(manifest_pairs(text), at),
        Outcome::Done(None, at) => Outcome::Done(seq![], at),
    }
}

/// The files, and their blobs, of the content that was last accepted.
pub fn read_manifest(run: &mut Run) -> (r: Result<Vec<(String, String)>, Halt>)
    ensures
        goes_on(*final(run), *old(run)),
        came_to(r, *final(run), play_read_manifest(old(run).log@, old(run).at as int)),
{
    let w = owned(vec!["config", "--local", "--get-all", "hooks.consentManifest"]);
    assert(texts(w@) =~= seq!["config"@, "--local"@, "--get-all"@, "hooks.consentManifest"@]);
    match git_capture(run, w)? {
        Some(text) => Ok(parse_manifest(text.as_str())),
        None => {
            let none: Vec<(String, String)> = Vec::new();
            assert(pair_texts(none@) =~= seq![]);
            Ok(none)
        },
    }
}

/// What storing a file comes to: its blob in the object database of `git`.
pub open spec fn play_store_object(log: Seq<Exchange>, at: int, path: Seq<char>) -> Outcome<
    Option<Seq<char>>,
> {
    play_git_capture(log, at, seq!["hash-object"@, "-w"@, path])
}

/// Stores a file in the object database of `git` and gives its blob.
pub fn store_object(run: &mut Run, path: &str) -> (r: Result<Option<String>, Halt>)
    ensures
        goes_on(*final(run), *old(run)),
        came_to(r, *final(run), play_store_object(old(run).log@, old(run).at as int, path@)),
{
    let w = owned(vec!["hash-object", "-w", path]);
    assert(texts(w@) =~= seq!["hash-object"@, "-w"@, path@]);
    git_capture(run, w)
}

/// How `git` is told to add a line to the manifest.
pub open spec fn manifest_addition(line: Seq<char>) -> Seq<Seq<char>> {
    seq!["config"@, "--local"@, "--add"@, "hooks.consentManifest"@, line]
}

/// What writing the manifest from the `i`-th file on comes to.
pub open spec fn play_manifest_from(
    windows: bool,
    log: Seq<Exchange>,
    at: int,
    root: Seq<char>,
    files: Seq<Seq<char>>,
    i: int,
) -> Outcome<()>
    decreases files.len() - i,
{
    if i >= files.len() {
        Outcome::Done((), at)
    } else {
        match play_store_object(log, at, files[i]) {
            Outcome::Stop(s) => Outcome::Stop(s),
            Outcome::Done(None, at) => play_manifest_from(windows, log, at, root, files, i + 1),
            Outcome::Done(Some(blob), at) => match play_git(
                log,
                at,
                manifest_addition(manifest_line(path_rel(windows, root, files[i]), blob)),
            ) {
                Outcome::Stop(s) => Outcome::Stop(s),
                Outcome::Done(_, at) => play_manifest_from(windows, log, at, root, files, i + 1),
            },
        }
    }
}

/// What writing the manifest comes to.
pub open spec fn play_write_manifest(windows: bool, log: Seq<Exchange>, at: int) -> Outcome<()> {
    match play_repo_root(log, at) {
        Outcome::Stop(s) => Outcome::Stop(s),
        Outcome::Done(None, at) => Outcome::Done((), at),
        Outcome::Done(Some(root), at) => match play_githooks_dir_files(windows, log, at, root) {
            Outcome::Stop(s) => Outcome::Stop(s),
            Outcome::Done(files, at) => play_manifest_from(
                windows,
                log,
                at,
                root,
                seq![path_joined(windows, root, CONFIG_FILE@)] + files,
                0,
            ),
        },
    }
}

/// Stores the configuration and every file under the directory of hook scripts
/// in the object database of `git`, and writes down which blob each of them is,
/// so that a later change can be shown as a diff.
pub fn write_manifest(run: &mut Run) -> (r: Result<(), Halt>)
    ensures
        goes_on(*final(run), *old(run)),
        came_to(
            r,
            *final(run),
            play_write_manifest(old(run).windows, old(run).log@, old(run).at as int),
        ),
{
    let root = match repo_root(run)? {
        Some(root) => root,
        None => return Ok(()),
    };
    let mut scripts = githooks_dir_files(run, root.as_str())?;
    let ghost found = texts(scripts@);
    let mut files: Vec<String> = vec![join_path(run.windows, root.as_str(), CONFIG_FILE)];
    files.append(&mut scripts);
    let ghost all = texts(files@);
    assert(all =~= seq![path_joined(old(run).windows, root@, CONFIG_FILE@)] + found);
    let mut i: usize = 0;
    while i < files.len()
        invariant
            goes_on(*run, *old(run)),
            i <= files@.len(),
            all == texts(files@),
            play_write_manifest(
                old(run).windows,
                old(run).log@,
                old(run).at as int,
            ) == play_manifest_from(
                old(run).windows,
                old(run).log@,
                run.at as int,
                root@,
                all,
                i as int,
            ),
        decreases files@.len() - i,
    {
        assert(all[i as int] == files@[i as int]@);
        let path = rel(run.windows, root.as_str(), files[i].as_str());
        if let Some(blob) = store_object(run, files[i].as_str())? {
            let line = cat3(path.as_str(), "\t", blob.as_str());
            let w = owned(
                vec!["config", "--local", "--add", "hooks.consentManifest", line.as_str()],
            );
            assert(texts(w@) =~= manifest_addition(line@));
            git(run, w)?;
        }
        i = i + 1;
    }
    Ok(())
}

// ---------------------------------------------------------------------------
// Recording a decision.
// ---------------------------------------------------------------------------

/// How `git` is told to record a decision.
pub open spec fn state_update(text: Seq<char>) -> Seq<Seq<char>> {
    seq!["config"@, "--local"@, "hooks.consent"@, text]
}

/// How `git` is told to forget the manifest.
pub open spec fn manifest_removal() -> Seq<Seq<char>> {
    seq!["config"@, "--local"@, "--unset-all"@, "hooks.consentManifest"@]
}

/// What recording a decision comes to.
pub open spec fn play_record_consent(
    windows: bool,
    log: Seq<Exchange>,
    at: int,
    accept: bool,
) -> Outcome<()> {
    match play_consent_hash(windows, log, at) {
        Outcome::Stop(s) => Outcome::Stop(s),
        Outcome::Done(None, _) => Outcome::Stop(Stop::Abort("config file exists"@)),
        Outcome::Done(Some(hash), at) => match play_git(
            log,
            at,
            state_update(verdict(accept, hash)),
        ) {
            Outcome::Stop(s) => Outcome::Stop(s),
            Outcome::Done(_, at) => match play_git_capture(log, at, manifest_removal()) {
                Outcome::Stop(s) => Outcome::Stop(s),
                Outcome::Done(_, at) => if accept {
                    play_write_manifest(windows, log, at)
                } else {
                    Outcome::Done((), at)
                },
            },
        },
    }
}

/// Records the decision, keyed to the hash of the content that is there now. On
/// acceptance the accepted content is stored too, with a manifest of it. Declines
/// stay cheap: just the hash, and no manifest.
pub fn record_consent(run: &mut Run, accept: bool) -> (r: Result<(), Halt>)
    ensures
        goes_on(*final(run), *old(run)),
        came_to(
            r,
            *final(run),
            play_record_consent(old(run).windows, old(run).log@, old(run).at as int, accept),
        ),
{
    let hash = match consent_hash(run)? {
        Some(hash) => hash,
        None => return Err(Halt::Abort("config file exists".to_string())),
    };
    let text = verdict_text(accept, hash.as_str());
    let w = owned(vec!["config", "--local", "hooks.consent", text.as_str()]);
    assert(texts(w@) =~= state_update(text@));
    git(run, w)?;
    let w = owned(vec!["config", "--local", "--unset-all", "hooks.consentManifest"]);
    assert(texts(w@) =~= manifest_removal());
    let _ = git_capture(run, w)?;
    if accept {
        write_manifest(run)
    } else {
        Ok(())
    }
}

// ---------------------------------------------------------------------------
// What is written down is what is read.
// ---------------------------------------------------------------------------

/// A decision about a content is read as that decision as long as the content has
/// the same hash.
pub proof fn law_decision_holds(accept: bool, hash: Seq<char>)
    ensures
        decision(Some(verdict(accept, hash)), Some(hash)) == (if accept {
            Decision::Accepted
        } else {
            Decision::Declined
        }),
{
    reveal_strlit("accept");
    reveal_strlit("decline");
    assert(verdict(true, hash)[0] == 'a');
    assert(verdict(false, hash)[0] == 'd');
}

/// A decision about a content neither accepts nor declines content with another
/// hash.
pub proof fn law_other_content_is_undecided(accept: bool, hash: Seq<char>, now: Seq<char>)
    requires
        hash != now,
    ensures
        decision(Some(verdict(accept, hash)), Some(now)) == Decision::Changed,
{
    reveal_strlit("accept");
    reveal_strlit("decline");
    reveal_strlit(":");
    let s = verdict(accept, hash);
    assert(verdict(true, now)[0] == 'a');
    assert(verdict(false, now)[0] == 'd');
    let k: int = if accept {
        7
    } else {
        8
    };
    assert(s.skip(k) =~= hash);
    if s == verdict(accept, now) {
        assert(verdict(accept, now).skip(k) =~= now);
    }
}

/// A recorded decision comes back from `git` as it was recorded.
pub proof fn law_decision_read_back(accept: bool, data: Seq<char>, f: Finished)
    requires
        succeeded(f),
        said(f) == verdict(accept, trimmed(data)) + "\n"@,
    ensures
        captured(Some(f)) == Some(verdict(accept, trimmed(data))),
{
    reveal_strlit("accept");
    reveal_strlit("decline");
    reveal_strlit(":");
    let hash = trimmed(data);
    lemma_trimmed_end(trimmed_start(data));
    let s = verdict(accept, hash);
    assert(s.last() == if hash.len() > 0 {
        hash.last()
    } else {
        ':'
    });
    lemma_trimmed_line(s);
}

/// The pinned form of the environment variable holds for one content only: for
/// content with another hash it decides nothing.
pub proof fn law_pin_holds_for_one_content(hash: Seq<char>, now: Seq<char>)
    ensures
        env_decision(Some(verdict(true, hash)), now) == (if hash == now {
            Some(true)
        } else {
            None
        }),
{
    reveal_strlit("accept");
    reveal_strlit("decline");
    reveal_strlit(":");
    let s = verdict(true, hash);
    assert(s.len() == 7 + hash.len());
    assert(s[0] == 'a');
    assert(s.skip(7) =~= hash);
    assert(verdict(true, now).skip(7) =~= now);
}

/// The lines of a manifest.
pub open spec fn manifest_lines(pairs: Seq<(Seq<char>, Seq<char>)>) -> Seq<Seq<char>> {
    Seq::new(pairs.len(), |i: int| manifest_line(pairs[i].0, pairs[i].1))
}

/// A line of the manifest names the file and the blob that were written down.
proof fn lemma_line_pair(path: Seq<char>, blob: Seq<char>)
    requires
        !path.contains('\t'),
    ensures
        line_pair(manifest_line(path, blob)) == Some((path, blob)),
{
    reveal_strlit("\t");
    let line = manifest_line(path, blob);
    let k = before(line, '\t');
    lemma_before(line, '\t');
    assert(line[path.len() as int] == '\t');
    if k < path.len() {
        assert(line[k] == path[k]);
        assert(path.contains(path[k]));
    }
    assert(line.take(k) =~= path);
    assert(line.skip(k + 1) =~= blob);
}

/// Single items, one after the other.
proof fn lemma_concat_singles<A>(list: Seq<A>)
    ensures
        concat(Seq::new(list.len(), |i: int| seq![list[i]])) == list,
    decreases list.len(),
{
    let singles = Seq::new(list.len(), |i: int| seq![list[i]]);
    if list.len() > 0 {
        lemma_concat_singles(list.drop_last());
        assert(singles.drop_last() =~= Seq::new(
            list.drop_last().len(),
            |i: int| seq![list.drop_last()[i]],
        ));
        assert(list.drop_last() + seq![list.last()] =~= list);
    }
}

/// The manifest of what was accepted is read back as it was written. Paths may
/// hold no tab and no line feed, and begin in something other than white space;
/// blobs are not empty and hold no white space.
pub proof fn law_manifest_read_back(pairs: Seq<(Seq<char>, Seq<char>)>)
    requires
        pairs.len() > 0,
        forall|i: int|
            0 <= i < pairs.len() ==> {
                let (path, blob) = #[trigger] pairs[i];
                &&& !path.contains('\t')
                &&& !path.contains('\n')
                &&& path.len() > 0
                &&& !is_space(path[0])
                &&& blob.len() > 0
                &&& forall|j: int| 0 <= j < blob.len() ==> !is_space(#[trigger] blob[j])
            },
    ensures
        manifest_pairs(trimmed(joined(manifest_lines(pairs), "\n"@) + "\n"@)) == pairs,
{
    reveal_strlit("\t");
    let list = manifest_lines(pairs);
    assert forall|i: int| 0 <= i < list.len() implies !(#[trigger] list[i]).contains('\n')
        && list[i].len() > 0 && list[i].last() != '\r' by {
        let (path, blob) = pairs[i];
        let line = manifest_line(path, blob);
        assert(list[i] == line);
        assert(line.last() == blob.last());
        assert(!is_space(blob[blob.len() - 1]));
        if line.contains('\n') {
            let k = choose|k: int| 0 <= k < line.len() && line[k] == '\n';
            if k < path.len() {
                assert(path[k] == '\n');
                assert(path.contains(path[k]));
            } else if k > path.len() {
                let j = k - path.len() - 1;
                assert(blob[j] == '\n');
            }
        }
    }
    assert(pairs[0] == (pairs[0].0, pairs[0].1));
    assert(list[0][0] == pairs[0].0[0]);
    let last = pairs[pairs.len() - 1].1;
    assert(list.last().last() == last[last.len() - 1]);
    law_lines_read_back(list);
    let text = trimmed(joined(list, "\n"@) + "\n"@);
    assert(Seq::new(list.len(), |i: int| at_most_one(line_pair(list[i]))) =~= Seq::new(
        pairs.len(),
        |i: int| seq![pairs[i]],
    )) by {
        assert forall|i: int| 0 <= i < pairs.len() implies at_most_one(
            line_pair(#[trigger] list[i]),
        ) == seq![pairs[i]] by {
            assert(pairs[i] == (pairs[i].0, pairs[i].1));
            lemma_line_pair(pairs[i].0, pairs[i].1);
        }
    }
    lemma_concat_singles(pairs);
}

/// Whether the exchanges show that a file was stored, and its blob written down in
/// the manifest, if it has one.
pub open spec fn is_stored(
    windows: bool,
    log: Seq<Exchange>,
    root: Seq<char>,
    file: Seq<char>,
) -> bool {
    exists|j: int| #[trigger]
        play_store_object(log, j, file) matches Outcome::Done(blob, k) && (blob matches Some(b)
            ==> play_git(log, k, manifest_addition(manifest_line(path_rel(windows, root, file), b)))
            is Done)
}

/// Once the manifest is written from the `i`-th file on, those files are stored.
proof fn lemma_manifest_covers(
    windows: bool,
    log: Seq<Exchange>,
    at: int,
    root: Seq<char>,
    files: Seq<Seq<char>>,
    i: int,
)
    requires
        0 <= i,
        play_manifest_from(windows, log, at, root, files, i) is Done,
    ensures
        forall|j: int| i <= j < files.len() ==> is_stored(windows, log, root, #[trigger] files[j]),
    decreases files.len() - i,
{
    if i < files.len() {
        assert(is_stored(windows, log, root, files[i]));
        match play_store_object(log, at, files[i]) {
            Outcome::Done(None, k) => {
                lemma_manifest_covers(windows, log, k, root, files, i + 1);
            },
            Outcome::Done(Some(blob), k) => {
                match play_git(
                    log,
                    k,
                    manifest_addition(manifest_line(path_rel(windows, root, files[i]), blob)),
                ) {
                    Outcome::Done(_, k) => {
                        lemma_manifest_covers(windows, log, k, root, files, i + 1);
                    },
                    _ => {},
                }
            },
            _ => {},
        }
    }
}

/// Acceptance is complete once it is through: the configuration and every file
/// under the directory of hook scripts are stored, and their blobs written down.
pub proof fn law_manifest_covers_everything(
    windows: bool,
    log: Seq<Exchange>,
    at: int,
    root: Seq<char>,
    files: Seq<Seq<char>>,
)
    requires
        play_manifest_from(
            windows,
            log,
            at,
            root,
            seq![path_joined(windows, root, CONFIG_FILE@)] + files,
            0,
        ) is Done,
    ensures
        is_stored(windows, log, root, path_joined(windows, root, CONFIG_FILE@)),
        forall|j: int| 0 <= j < files.len() ==> is_stored(windows, log, root, #[trigger] files[j]),
{
    let all = seq![path_joined(windows, root, CONFIG_FILE@)] + files;
    lemma_manifest_covers(windows, log, at, root, all, 0);
    assert(all[0] == path_joined(windows, root, CONFIG_FILE@));
    assert forall|j: int| 0 <= j < files.len() implies is_stored(
        windows,
        log,
        root,
        #[trigger] files[j],
    ) by {
        assert(all[j + 1] == files[j]);
    }
}

} // verus!
