//! Asking the user: what the prompt shows, what the answers mean, and what
//! becomes of them.
use crate::config::{candidates, config_shown, document_refs, render_config, CONFIG_FILE, HOOKS_DIR};
use crate::consent::{
    play_read_manifest, play_record_consent, play_store_object, read_manifest, record_consent,
    store_object,
};
use crate::content::{
    githooks_dir_files, hash_object, or_empty, pair_texts, play_githooks_dir_files,
    play_hash_object,
};
use crate::document::{read_document, toml_parsed};
use crate::git::{git_capture, play_git_capture, play_tell, tell};
use crate::order::{collect_distinct, distinct};
use crate::paths::{find_inside, join_path, names_inside, path_joined, path_rel, rel};
use crate::text::{
    cat2, cat3, concat, join, joined, listed, maybe, same, texts, trim, trim_end, trimmed,
    trimmed_end,
};
use crate::trust::{add_local_trusted_key, play_add_local_trusted_key, Signed, Trust};
use crate::world::{
    asked_done, asked_flag, asked_text, came_to, goes_on, one, owned, two, Exchange, Halt, Op,
    Outcome, Run, Stop,
};
use vstd::prelude::*;

verus! {

// ---------------------------------------------------------------------------
// First contact.
// ---------------------------------------------------------------------------

/// The names of files in the repository at `root`.
pub open spec fn rels(windows: bool, root: Seq<char>, files: Seq<Seq<char>>) -> Seq<Seq<char>> {
    Seq::new(files.len(), |i: int| path_rel(windows, root, files[i]))
}

/// The names of files in the repository at `root`.
pub fn rel_all(windows: bool, root: &str, files: &Vec<String>) -> (r: Vec<String>)
    ensures
        texts(r@) == rels(windows, root@, texts(files@)),
{
    let mut out: Vec<String> = Vec::new();
    let mut i: usize = 0;
    while i < files.len()
        invariant
            i <= files@.len(),
            out@.len() == i,
            forall|j: int| 0 <= j < i ==> (#[trigger] out@[j])@ == path_rel(
                windows,
                root@,
                files@[j]@,
            ),
        decreases files@.len() - i,
    {
        out.push(rel(windows, root, files[i].as_str()));
        i = i + 1;
    }
    assert(texts(out@) =~= rels(windows, root@, texts(files@)));
    out
}

/// A list of names, one per line and indented.
pub open spec fn names_shown(names: Seq<Seq<char>>) -> Seq<char> {
    concat(Seq::new(names.len(), |i: int| "  "@ + names[i] + "\n"@))
}

/// A list of names, one per line and indented.
pub fn show_names(names: &Vec<String>) -> (r: String)
    ensures
        r@ == names_shown(texts(names@)),
{
    let ghost all = texts(names@);
    let ghost shown = Seq::new(all.len(), |i: int| "  "@ + all[i] + "\n"@);
    let mut s = String::new();
    let mut i: usize = 0;
    while i < names.len()
        invariant
            i <= names@.len(),
            all == texts(names@),
            shown == Seq::new(all.len(), |i: int| "  "@ + all[i] + "\n"@),
            s@ == concat(shown.take(i as int)),
        decreases names@.len() - i,
    {
        s.append(cat3("  ", names[i].as_str(), "\n").as_str());
        assert(shown.take(i + 1).drop_last() =~= shown.take(i as int));
        i = i + 1;
    }
    assert(shown.take(i as int) =~= shown);
    s
}

/// How the scripts that consent covers are shown, after a blank line, if there
/// are any.
pub open spec fn scripts_shown(names: Seq<Seq<char>>) -> Seq<char> {
    if names.len() == 0 {
        seq![]
    } else {
        "\ncovered scripts under "@ + HOOKS_DIR@ + "/:\n"@ + names_shown(names)
    }
}

/// How the scripts that consent covers are shown.
pub fn show_scripts(names: &Vec<String>) -> (r: String)
    ensures
        r@ == scripts_shown(texts(names@)),
{
    assert(texts(names@).len() == names@.len());
    if names.len() == 0 {
        String::new()
    } else {
        let mut s = cat3("\ncovered scripts under ", HOOKS_DIR, "/:\n");
        s.append(show_names(names).as_str());
        s
    }
}

/// What the first prompt shows: the whole configuration, and the scripts it can
/// reach.
pub open spec fn first_body(config: Seq<char>, names: Seq<Seq<char>>) -> Seq<char> {
    "this repository wants to run the following hooks ("@ + CONFIG_FILE@ + "):\n\n"@ + config
        + scripts_shown(names)
}

/// What forming the body of the first prompt comes to.
pub open spec fn play_first_prompt_body(
    windows: bool,
    log: Seq<Exchange>,
    at: int,
    root: Seq<char>,
    raw: Seq<char>,
) -> Outcome<Seq<char>> {
    match play_githooks_dir_files(windows, log, at, root) {
        Outcome::Stop(s) => Outcome::Stop(s),
        Outcome::Done(files, at) => Outcome::Done(
            first_body(config_shown(toml_parsed(raw), raw), rels(windows, root, files)),
            at,
        ),
    }
}

/// First contact: shows the whole configuration, plus the scripts it can reach.
pub fn first_prompt_body(run: &mut Run, root: &str, raw: &str) -> (r: Result<String, Halt>)
    ensures
        goes_on(*final(run), *old(run)),
        came_to(
            r,
            *final(run),
            play_first_prompt_body(
                old(run).windows,
                old(run).log@,
                old(run).at as int,
                root@,
                raw@,
            ),
        ),
{
    let files = githooks_dir_files(run, root)?;
    let names = rel_all(run.windows, root, &files);
    let mut s = cat3(
        "this repository wants to run the following hooks (",
        CONFIG_FILE,
        "):\n\n",
    );
    s.append(render_config(raw).as_str());
    s.append(show_scripts(&names).as_str());
    Ok(s)
}

// ---------------------------------------------------------------------------
// What changed.
// ---------------------------------------------------------------------------

/// What diffing a stored blob against a file comes to.
pub open spec fn play_git_diff_blob_file(
    log: Seq<Exchange>,
    at: int,
    old_blob: Seq<char>,
    path: Seq<char>,
) -> Outcome<Seq<char>> {
    match play_store_object(log, at, path) {
        Outcome::Stop(s) => Outcome::Stop(s),
        Outcome::Done(new, at) => match play_git_capture(
            log,
            at,
            seq!["--no-pager"@, "diff"@, old_blob, or_empty(new)],
        ) {
            Outcome::Stop(s) => Outcome::Stop(s),
            Outcome::Done(text, at) => Outcome::Done(or_empty(text), at),
        },
    }
}

/// Diffs the accepted blob against the file's current content, which is stored
/// first, so that `git diff` can resolve both sides.
pub fn git_diff_blob_file(run: &mut Run, old_blob: &str, path: &str) -> (r: Result<String, Halt>)
    ensures
        goes_on(*final(run), *old(run)),
        came_to(
            r,
            *final(run),
            play_git_diff_blob_file(old(run).log@, old(run).at as int, old_blob@, path@),
        ),
{
    let new = match store_object(run, path)? {
        Some(blob) => blob,
        None => String::new(),
    };
    let w = owned(vec!["--no-pager", "diff", old_blob, new.as_str()]);
    assert(texts(w@) =~= seq!["--no-pager"@, "diff"@, old_blob@, new@]);
    match git_capture(run, w)? {
        Some(text) => Ok(text),
        None => Ok(String::new()),
    }
}

/// The blob that a manifest gives a file: that of the last line about it.
pub open spec fn accepted_blob(
    manifest: Seq<(Seq<char>, Seq<char>)>,
    path: Seq<char>,
) -> Option<Seq<char>>
    decreases manifest.len(),
{
    if manifest.len() == 0 {
        None
    } else if manifest.last().0 == path {
        Some(manifest.last().1)
    } else {
        accepted_blob(manifest.drop_last(), path)
    }
}

/// The blob that a manifest gives a file.
pub fn find_blob<'a>(manifest: &'a Vec<(String, String)>, path: &str) -> (r: Option<&'a String>)
    ensures
        match r {
            Some(blob) => accepted_blob(pair_texts(manifest@), path@) == Some(blob@),
            None => accepted_blob(pair_texts(manifest@), path@) is None,
        },
{
    let ghost all = pair_texts(manifest@);
    let mut i: usize = manifest.len();
    assert(all.take(i as int) =~= all);
    while i > 0
        invariant
            i <= manifest@.len(),
            all == pair_texts(manifest@),
            accepted_blob(all, path@) == accepted_blob(all.take(i as int), path@),
        decreases i,
    {
        assert(all.take(i as int).drop_last() =~= all.take(i - 1));
        assert(all.take(i as int).last() == all[i - 1]);
        if same(manifest[i - 1].0.as_str(), path) {
            return Some(&manifest[i - 1].1);
        }
        i = i - 1;
    }
    None
}

/// What is said of a file that was not accepted before: its name, and its text
/// if that can be read.
pub open spec fn added_shown(path: Seq<char>, text: Option<Seq<char>>) -> Seq<char> {
    "--- added: "@ + path + " ---\n"@ + (match text {
        Some(c) => trimmed_end(c) + "\n"@,
        None => seq![],
    })
}

/// What is said of a file whose content is not what was accepted.
pub open spec fn changed_shown(path: Seq<char>, diff: Seq<char>) -> Seq<char> {
    "--- changed: "@ + path + " ---\n"@ + diff + "\n"@
}

/// What comparing the files from the `i`-th on with the manifest comes to: what
/// is said of those that changed or are new.
pub open spec fn play_changes(
    windows: bool,
    log: Seq<Exchange>,
    at: int,
    root: Seq<char>,
    manifest: Seq<(Seq<char>, Seq<char>)>,
    current: Seq<Seq<char>>,
    i: int,
    out: Seq<char>,
) -> Outcome<Seq<char>>
    decreases current.len() - i,
{
    if i >= current.len() {
        Outcome::Done(out, at)
    } else {
        let path = path_joined(windows, root, current[i]);
        match play_hash_object(log, at, path) {
            Outcome::Stop(s) => Outcome::Stop(s),
            Outcome::Done(cur, at) => match accepted_blob(manifest, current[i]) {
                Some(old) => if old == or_empty(cur) {
                    play_changes(windows, log, at, root, manifest, current, i + 1, out)
                } else {
                    match play_git_diff_blob_file(log, at, old, path) {
                        Outcome::Stop(s) => Outcome::Stop(s),
                        Outcome::Done(diff, at) => play_changes(
                            windows,
                            log,
                            at,
                            root,
                            manifest,
                            current,
                            i + 1,
                            out + changed_shown(current[i], diff),
                        ),
                    }
                },
                None => match asked_text(log, at, Op::ReadText, seq![path]) {
                    Outcome::Stop(s) => Outcome::Stop(s),
                    Outcome::Done(text, at) => play_changes(
                        windows,
                        log,
                        at,
                        root,
                        manifest,
                        current,
                        i + 1,
                        out + added_shown(current[i], text),
                    ),
                },
            },
        }
    }
}

/// What is said of an accepted file: that it was removed, if it is not there.
pub open spec fn removal_shown(path: Seq<char>, current: Seq<Seq<char>>) -> Seq<char> {
    if current.contains(path) {
        seq![]
    } else {
        "--- removed: "@ + path + " ---\n"@
    }
}

/// What is said of the accepted files that are not there any more.
pub open spec fn removals_shown(
    manifest: Seq<(Seq<char>, Seq<char>)>,
    current: Seq<Seq<char>>,
) -> Seq<char> {
    concat(Seq::new(manifest.len(), |i: int| removal_shown(manifest[i].0, current)))
}

/// What is said of the accepted files that are not there any more.
pub fn show_removals(manifest: &Vec<(String, String)>, current: &Vec<String>) -> (r: String)
    ensures
        r@ == removals_shown(pair_texts(manifest@), texts(current@)),
{
    let ghost all = pair_texts(manifest@);
    let ghost shown = Seq::new(all.len(), |i: int| removal_shown(all[i].0, texts(current@)));
    let mut s = String::new();
    let mut i: usize = 0;
    while i < manifest.len()
        invariant
            i <= manifest@.len(),
            all == pair_texts(manifest@),
            shown == Seq::new(all.len(), |i: int| removal_shown(all[i].0, texts(current@))),
            s@ == concat(shown.take(i as int)),
        decreases manifest@.len() - i,
    {
        let ghost start = s@;
        assert(shown.take(i + 1).drop_last() =~= shown.take(i as int));
        assert(all[i as int].0 == manifest@[i as int].0@);
        if !listed(current, manifest[i].0.as_str()) {
            s.append(cat3("--- removed: ", manifest[i].0.as_str(), " ---\n").as_str());
        } else {
            assert(start + shown[i as int] =~= start);
        }
        i = i + 1;
    }
    assert(shown.take(i as int) =~= shown);
    s
}

/// The files that consent covers: the configuration and the scripts.
pub open spec fn covered(windows: bool, root: Seq<char>, files: Seq<Seq<char>>) -> Seq<Seq<char>> {
    seq![CONFIG_FILE@] + rels(windows, root, files)
}

/// What a prompt about changed content begins with.
pub open spec fn change_heading() -> Seq<char> {
    "this repository's hooks CHANGED since you last accepted them. review the changes:\n\n"@
}

/// What forming the body of a prompt about changed content comes to.
pub open spec fn play_change_prompt_body(
    windows: bool,
    log: Seq<Exchange>,
    at: int,
    root: Seq<char>,
    manifest: Seq<(Seq<char>, Seq<char>)>,
) -> Outcome<Seq<char>> {
    match play_githooks_dir_files(windows, log, at, root) {
        Outcome::Stop(s) => Outcome::Stop(s),
        Outcome::Done(files, at) => match play_changes(
            windows,
            log,
            at,
            root,
            manifest,
            covered(windows, root, files),
            0,
            change_heading(),
        ) {
            Outcome::Stop(s) => Outcome::Stop(s),
            Outcome::Done(text, at) => Outcome::Done(
                text + removals_shown(manifest, covered(windows, root, files)),
                at,
            ),
        },
    }
}

/// The content changed since the last acceptance: shows what changed as a diff
/// against the accepted blobs, not the whole file.
pub fn change_prompt_body(
    run: &mut Run,
    root: &str,
    manifest: &Vec<(String, String)>,
) -> (r: Result<String, Halt>)
    ensures
        goes_on(*final(run), *old(run)),
        came_to(
            r,
            *final(run),
            play_change_prompt_body(
                old(run).windows,
                old(run).log@,
                old(run).at as int,
                root@,
                pair_texts(manifest@),
            ),
        ),
{
    let files = githooks_dir_files(run, root)?;
    let mut names = rel_all(run.windows, root, &files);
    let mut current: Vec<String> = vec![CONFIG_FILE.to_owned()];
    current.append(&mut names);
    let ghost all = texts(current@);
    assert(all =~= covered(old(run).windows, root@, texts(files@)));
    let ghost pairs = pair_texts(manifest@);
    let mut s =
        "this repository's hooks CHANGED since you last accepted them. review the changes:\n\n".to_string();
    let ghost start = run.at as int;
    let mut i: usize = 0;
    while i < current.len()
        invariant
            goes_on(*run, *old(run)),
            i <= current@.len(),
            all == texts(current@),
            pairs == pair_texts(manifest@),
            play_change_prompt_body(
                old(run).windows,
                old(run).log@,
                old(run).at as int,
                root@,
                pairs,
            ) == (
            match play_changes(
                old(run).windows,
                old(run).log@,
                start,
                root@,
                pairs,
                all,
                0,
                change_heading(),
            ) {
                Outcome::Stop(s) => Outcome::Stop(s),
                Outcome::Done(text, at) => Outcome::Done(text + removals_shown(pairs, all), at),
            }),
            play_changes(
                old(run).windows,
                old(run).log@,
                start,
                root@,
                pairs,
                all,
                0,
                change_heading(),
            ) == play_changes(
                    old(run).windows,
                    old(run).log@,
                    run.at as int,
                    root@,
                    pairs,
                    all,
                    i as int,
                    s@,
                ),
        decreases current@.len() - i,
    {
        assert(all[i as int] == current@[i as int]@);
        let name = current[i].as_str();
        let path = join_path(run.windows, root, name);
        let cur = match hash_object(run, path.as_str())? {
            Some(blob) => blob,
            None => String::new(),
        };
        let ghost seen = s@;
        match find_blob(manifest, name) {
            Some(old) => if !same(old.as_str(), cur.as_str()) {
                let diff = git_diff_blob_file(run, old.as_str(), path.as_str())?;
                s.append("--- changed: ");
                s.append(name);
                s.append(" ---\n");
                s.append(diff.as_str());
                s.append("\n");
                assert(s@ =~= seen + changed_shown(name@, diff@));
            },
            None => {
                let text = run.ask_text(Op::ReadText, one(path.as_str()))?;
                s.append("--- added: ");
                s.append(name);
                s.append(" ---\n");
                if let Some(c) = &text {
                    s.append(trim_end(c.as_str()).as_str());
                    s.append("\n");
                }
                assert(s@ =~= seen + added_shown(name@, maybe(text)));
            },
        }
        i = i + 1;
    }
    s.append(show_removals(manifest, &current).as_str());
    Ok(s)
}

// ---------------------------------------------------------------------------
// Files that consent does not cover.
// ---------------------------------------------------------------------------

/// Whether a path leads to a place in the repository at `root` whose content consent
/// does not cover: not the configuration, nor under the directory of hook scripts.
pub open spec fn uncovered(windows: bool, root: Seq<char>, path: Seq<char>) -> bool {
    match names_inside(windows, root, path) {
        Some(names) => !(names.len() > 1 && names[0] == HOOKS_DIR@) && names != seq![CONFIG_FILE@],
        None => false,
    }
}

/// Whether a path leads to a place in the repository whose content consent does not
/// cover.
pub fn is_uncovered(windows: bool, root: &str, path: &str) -> (r: bool)
    ensures
        r == uncovered(windows, root@, path@),
{
    match find_inside(windows, root, path) {
        Some(names) => {
            let ghost all = texts(names@);
            assert(all.len() == names@.len());
            if names.len() == 1 {
                assert(all[0] == names@[0]@);
                let r = !same(names[0].as_str(), CONFIG_FILE);
                if !r {
                    assert(all =~= seq![CONFIG_FILE@]);
                }
                r
            } else {
                assert(all != seq![CONFIG_FILE@]) by {
                    assert(all.len() != seq![CONFIG_FILE@].len());
                }
                names.len() == 0 || {
                    assert(all[0] == names@[0]@);
                    !same(names[0].as_str(), HOOKS_DIR)
                }
            }
        },
        None => false,
    }
}

/// What looking for the candidates from the `i`-th on comes to: those that are
/// files of the repository, and that consent does not cover.
pub open spec fn play_refs(
    windows: bool,
    log: Seq<Exchange>,
    at: int,
    root: Seq<char>,
    list: Seq<Seq<char>>,
    i: int,
    out: Seq<Seq<char>>,
) -> Outcome<Seq<Seq<char>>>
    decreases list.len() - i,
{
    if i >= list.len() {
        Outcome::Done(out, at)
    } else {
        let path = path_joined(windows, root, list[i]);
        if !uncovered(windows, root, path) {
            play_refs(windows, log, at, root, list, i + 1, out)
        } else {
            match asked_flag(log, at, Op::IsFile, seq![path]) {
                Outcome::Stop(s) => Outcome::Stop(s),
                Outcome::Done(there, at) => play_refs(
                    windows,
                    log,
                    at,
                    root,
                    list,
                    i + 1,
                    if there {
                        out.push(list[i])
                    } else {
                        out
                    },
                ),
            }
        }
    }
}

/// The warning about files that commands refer to and consent does not cover:
/// each of them once, in order.
pub open spec fn refs_warning(refs: Seq<Seq<char>>) -> Seq<char> {
    if refs.len() == 0 {
        seq![]
    } else {
        "note: these commands reference repo files whose content is NOT covered by this consent:\n  "@
            + joined(distinct(refs), "\n  "@) + "\n"@
    }
}

/// What forming the warning comes to.
pub open spec fn play_runtime_ref_warning(
    windows: bool,
    log: Seq<Exchange>,
    at: int,
    root: Seq<char>,
) -> Outcome<
    Seq<char>,
> {
    match asked_text(log, at, Op::ReadText, seq![path_joined(windows, root, CONFIG_FILE@)]) {
        Outcome::Stop(s) => Outcome::Stop(s),
        Outcome::Done(None, at) => Outcome::Done(seq![], at),
        Outcome::Done(Some(raw), at) => match toml_parsed(raw) {
            Err(_) => Outcome::Done(seq![], at),
            Ok(doc) => match play_refs(
                windows,
                log,
                at,
                root,
                document_refs(doc),
                0,
                seq![],
            ) {
                Outcome::Stop(s) => Outcome::Stop(s),
                Outcome::Done(refs, at) => Outcome::Done(refs_warning(refs), at),
            },
        },
    }
}

/// The candidates that are files of the repository, and that consent does not cover.
pub fn existing_refs(run: &mut Run, root: &str, list: &Vec<String>) -> (r: Result<
    Vec<String>,
    Halt,
>)
    ensures
        goes_on(*final(run), *old(run)),
        came_to(
            r,
            *final(run),
            play_refs(
                old(run).windows,
                old(run).log@,
                old(run).at as int,
                root@,
                texts(list@),
                0,
                seq![],
            ),
        ),
{
    let ghost all = texts(list@);
    let mut out: Vec<String> = Vec::new();
    assert(texts(out@) =~= seq![]);
    let mut i: usize = 0;
    while i < list.len()
        invariant
            goes_on(*run, *old(run)),
            i <= list@.len(),
            all == texts(list@),
            play_refs(
                old(run).windows,
                old(run).log@,
                old(run).at as int,
                root@,
                all,
                0,
                seq![],
            ) == play_refs(
                old(run).windows,
                old(run).log@,
                run.at as int,
                root@,
                all,
                i as int,
                texts(out@),
            ),
        decreases list@.len() - i,
    {
        assert(all[i as int] == list@[i as int]@);
        let ghost seen = texts(out@);
        let path = join_path(run.windows, root, list[i].as_str());
        if is_uncovered(run.windows, root, path.as_str()) && run.ask_flag(
            Op::IsFile,
            one(path.as_str()),
        )? {
            out.push(list[i].clone());
            assert(texts(out@) =~= seen.push(all[i as int]));
        }
        i = i + 1;
    }
    Ok(out)
}

/// The warning about files that commands refer to and consent does not cover.
pub fn show_refs(refs: &Vec<String>) -> (r: String)
    ensures
        r@ == refs_warning(texts(refs@)),
{
    assert(texts(refs@).len() == refs@.len());
    if refs.len() == 0 {
        String::new()
    } else {
        let list = collect_distinct(refs);
        cat3(
            "note: these commands reference repo files whose content is NOT covered by this consent:\n  ",
            join(&list, "\n  ").as_str(),
            "\n",
        )
    }
}

/// Warns when commands refer to repository files whose content the consent hash
/// does not cover, which is anything outside the directory of hook scripts. The
/// commands are split at white space, and a word with a `/` in it that resolves
/// to an existing file of the repository is flagged, however it gets there. A path
/// built by shell substitution is not caught.
pub fn runtime_ref_warning(run: &mut Run, root: &str) -> (r: Result<String, Halt>)
    ensures
        goes_on(*final(run), *old(run)),
        came_to(
            r,
            *final(run),
            play_runtime_ref_warning(old(run).windows, old(run).log@, old(run).at as int, root@),
        ),
{
    let path = join_path(run.windows, root, CONFIG_FILE);
    let raw = match run.ask_text(Op::ReadText, one(path.as_str()))? {
        Some(raw) => raw,
        None => return Ok(String::new()),
    };
    let doc = match read_document(raw.as_str()) {
        Ok(doc) => doc,
        Err(_) => return Ok(String::new()),
    };
    let list = candidates(&doc);
    let refs = existing_refs(run, root, &list)?;
    Ok(show_refs(&refs))
}

// ---------------------------------------------------------------------------
// The prompt.
// ---------------------------------------------------------------------------

/// The console devices to read from and to write to.
pub open spec fn devices(windows: bool) -> (Seq<char>, Seq<char>) {
    if windows {
        ("CONIN$"@, "CONOUT$"@)
    } else {
        ("/dev/tty"@, "/dev/tty"@)
    }
}

/// Console device paths for prompting: `/dev/tty`, or `CONIN$` and `CONOUT$` on
/// Windows.
pub fn tty_devices(windows: bool) -> (r: (&'static str, &'static str))
    ensures
        (r.0@, r.1@) == devices(windows),
{
    if windows {
        ("CONIN$", "CONOUT$")
    } else {
        ("/dev/tty", "/dev/tty")
    }
}

/// The prompt: who signed, what would run, the warnings, and the choices. Only a
/// valid signature offers to trust its key.
pub open spec fn prompt_shown(signed: Signed, body: Seq<char>, warning: Seq<char>) -> Seq<char> {
    "\n"@ + (match signed {
        Signed::Valid(principal, fingerprint) => "signed by "@ + principal + ", key "@ + fingerprint
            + "\n\n"@,
        _ => seq![],
    }) + body + "\nthese commands will run on your machine during git operations.\n"@ + (
    match signed {
        Signed::Invalid =>
        "signature present but INVALID — do not accept unless you understand why.\n"@,
        _ => seq![],
    }) + warning + (match signed {
        Signed::Valid(_, _) => "[y]es once / [t]rust key / [N]o "@,
        _ => "accept? [y/N] "@,
    }) + "\n"@
}

/// The prompt.
pub fn prompt_text(trust: &Trust, body: &str, warning: &str) -> (r: String)
    ensures
        r@ == prompt_shown(trust@, body@, warning@),
{
    let header = match trust {
        Trust::Valid { principal, fingerprint } => {
            let mut h = cat2("signed by ", principal.as_str());
            h.append(", key ");
            h.append(fingerprint.as_str());
            h.append("\n\n");
            h
        },
        _ => String::new(),
    };
    let mut s = cat3("\n", header.as_str(), body);
    s.append("\nthese commands will run on your machine during git operations.\n");
    let invalid = match trust {
        Trust::Invalid =>
        "signature present but INVALID — do not accept unless you understand why.\n".to_string(),
        _ => String::new(),
    };
    s.append(invalid.as_str());
    s.append(warning);
    match trust {
        Trust::Valid { .. } => s.append("[y]es once / [t]rust key / [N]o "),
        _ => s.append("accept? [y/N] "),
    }
    s.append("\n");
    s
}

/// What an answer means: whether to accept, and whether to trust the key too.
pub open spec fn answer_means(answer: Seq<char>, offer_trust: bool) -> (bool, bool) {
    let a = trimmed(answer);
    if offer_trust && (a == "t"@ || a == "T"@) {
        (true, true)
    } else {
        (a == "y"@ || a == "Y"@ || a == "yes"@, false)
    }
}

/// What an answer means: whether to accept, and whether to trust the key too.
pub fn read_answer(answer: &str, offer_trust: bool) -> (r: (bool, bool))
    ensures
        r == answer_means(answer@, offer_trust),
{
    let a = trim(answer);
    if offer_trust && (same(a.as_str(), "t") || same(a.as_str(), "T")) {
        (true, true)
    } else {
        (same(a.as_str(), "y") || same(a.as_str(), "Y") || same(a.as_str(), "yes"), false)
    }
}

/// What is said when there is no terminal.
pub open spec fn no_terminal_notice() -> Seq<char> {
    "git-hooks: this repository defines hooks in "@ + CONFIG_FILE@
        + " (not yet accepted).\ngit-hooks: no terminal to ask on — skipping them. run `git hooks accept` to enable.\n"@
}

/// What is said once the answer is recorded.
pub open spec fn answer_notice(accepted: bool) -> Seq<char> {
    (if accepted {
        "accepted"@
    } else {
        "declined"@
    }) + ". change your mind anytime: `git hooks accept` / `git hooks decline`.\n"@
}

/// Whether the user is offered to trust the key.
pub open spec fn offers_trust(signed: Signed) -> bool {
    signed is Valid
}

/// What acting on an answer comes to.
pub open spec fn play_answer(
    windows: bool,
    log: Seq<Exchange>,
    at: int,
    signed: Signed,
    answer: Seq<char>,
) -> Outcome<bool> {
    let (accepted, trust_key) = answer_means(answer, offers_trust(signed));
    match play_record_consent(windows, log, at, accepted) {
        Outcome::Stop(s) => Outcome::Stop(s),
        Outcome::Done(_, at) => match (if trust_key {
            play_add_local_trusted_key(log, at, signed->Valid_1)
        } else {
            Outcome::Done((), at)
        }) {
            Outcome::Stop(s) => Outcome::Stop(s),
            Outcome::Done(_, at) => match asked_done(
                log,
                at,
                Op::TellTerminal,
                seq![answer_notice(accepted)],
            ) {
                Outcome::Stop(s) => Outcome::Stop(s),
                Outcome::Done(_, at) => Outcome::Done(accepted, at),
            },
        },
    }
}

/// What forming the body of the prompt comes to.
pub open spec fn play_prompt_body(
    windows: bool,
    log: Seq<Exchange>,
    at: int,
    root: Seq<char>,
    raw: Seq<char>,
) -> Outcome<Seq<char>> {
    match play_read_manifest(log, at) {
        Outcome::Stop(s) => Outcome::Stop(s),
        Outcome::Done(manifest, at) => if manifest.len() == 0 {
            play_first_prompt_body(windows, log, at, root, raw)
        } else {
            play_change_prompt_body(windows, log, at, root, manifest)
        },
    }
}

/// What asking the user comes to.
pub open spec fn play_prompt_consent(
    log: Seq<Exchange>,
    at: int,
    windows: bool,
    root: Seq<char>,
    raw: Seq<char>,
    signed: Signed,
) -> Outcome<bool> {
    match asked_flag(log, at, Op::OpenTerminal, seq![devices(windows).0, devices(windows).1]) {
        Outcome::Stop(s) => Outcome::Stop(s),
        Outcome::Done(false, at) => match play_tell(log, at, no_terminal_notice()) {
            Outcome::Stop(s) => Outcome::Stop(s),
            Outcome::Done(_, at) => Outcome::Done(false, at),
        },
        Outcome::Done(true, at) => match play_prompt_body(windows, log, at, root, raw) {
            Outcome::Stop(s) => Outcome::Stop(s),
            Outcome::Done(body, at) => match play_runtime_ref_warning(windows, log, at, root) {
                Outcome::Stop(s) => Outcome::Stop(s),
                Outcome::Done(warning, at) => match asked_done(
                    log,
                    at,
                    Op::TellTerminal,
                    seq![prompt_shown(signed, body, warning)],
                ) {
                    Outcome::Stop(s) => Outcome::Stop(s),
                    Outcome::Done(_, at) => match asked_text(log, at, Op::HearTerminal, seq![]) {
                        Outcome::Stop(s) => Outcome::Stop(s),
                        Outcome::Done(None, _) => Outcome::Stop(
                            Stop::Abort("read the terminal"@),
                        ),
                        Outcome::Done(Some(answer), at) => play_answer(
                            windows,
                            log,
                            at,
                            signed,
                            answer,
                        ),
                    },
                },
            },
        },
    }
}

/// Acts on an answer: records it, trusts the key if that was the answer, and
/// says what was recorded.
pub fn act_on_answer(run: &mut Run, trust: &Trust, answer: &str) -> (r: Result<bool, Halt>)
    ensures
        goes_on(*final(run), *old(run)),
        came_to(
            r,
            *final(run),
            play_answer(old(run).windows, old(run).log@, old(run).at as int, trust@, answer@),
        ),
{
    let offer = match trust {
        Trust::Valid { .. } => true,
        _ => false,
    };
    let (accepted, trust_key) = read_answer(answer, offer);
    record_consent(run, accepted)?;
    if trust_key {
        if let Trust::Valid { fingerprint, .. } = trust {
            add_local_trusted_key(run, fingerprint.as_str())?;
        }
    }
    let notice = if accepted {
        cat2(
            "accepted",
            ". change your mind anytime: `git hooks accept` / `git hooks decline`.\n",
        )
    } else {
        cat2(
            "declined",
            ". change your mind anytime: `git hooks accept` / `git hooks decline`.\n",
        )
    };
    run.ask_done(Op::TellTerminal, one(notice.as_str()))?;
    Ok(accepted)
}

/// Asks on the controlling terminal, since the input of a hook belongs to `git`.
/// No console means no consent: hooks are skipped, and it is said how to opt in.
///
/// The first prompt ever shows the full configuration and the covered scripts.
/// Where a manifest shows that content was accepted before, the hooks changed,
/// and a diff against the accepted version is shown instead.
///
/// The signature shapes the prompt: a valid one adds a header and the choice to
/// trust its key, an invalid one adds a loud warning.
pub fn prompt_consent(run: &mut Run, root: &str, raw: &str, trust: &Trust) -> (r: Result<
    bool,
    Halt,
>)
    ensures
        goes_on(*final(run), *old(run)),
        came_to(
            r,
            *final(run),
            play_prompt_consent(
                old(run).log@,
                old(run).at as int,
                old(run).windows,
                root@,
                raw@,
                trust@,
            ),
        ),
{
    let (in_dev, out_dev) = tty_devices(run.windows);
    if !run.ask_flag(Op::OpenTerminal, two(in_dev, out_dev))? {
        let notice = cat3(
            "git-hooks: this repository defines hooks in ",
            CONFIG_FILE,
            " (not yet accepted).\ngit-hooks: no terminal to ask on — skipping them. run `git hooks accept` to enable.\n",
        );
        tell(run, notice.as_str())?;
        return Ok(false);
    }
    let manifest = read_manifest(run)?;
    assert(pair_texts(manifest@).len() == manifest@.len());
    let body = if manifest.len() == 0 {
        first_prompt_body(run, root, raw)?
    } else {
        change_prompt_body(run, root, &manifest)?
    };
    let warning = runtime_ref_warning(run, root)?;
    let text = prompt_text(trust, body.as_str(), warning.as_str());
    run.ask_done(Op::TellTerminal, one(text.as_str()))?;
    let none: Vec<String> = Vec::new();
    assert(texts(none@) =~= seq![]);
    match run.ask_text(Op::HearTerminal, none)? {
        Some(answer) => act_on_answer(run, trust, answer.as_str()),
        None => Err(Halt::Abort("read the terminal".to_string())),
    }
}

} // verus!
