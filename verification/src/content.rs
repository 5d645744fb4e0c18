//! What consent covers: the configuration and all that lies under the directory
//! of hook scripts, as one canonical text and its hash.
use crate::config::{CONFIG_FILE, HOOKS_DIR};
use crate::git::{
    git_capture, git_hash_stdin, play_git_capture, play_git_hash_stdin, play_repo_root, repo_root,
};
use crate::order::{path_order, paths_order, sort, sorted};
use crate::paths::{join_path, path_joined, path_rel, rel};
use crate::text::{begins, cat2, concat, maybe, starts_with, texts};
use crate::world::{
    asked_flag, asked_listing, came_to, goes_on, one, two, Exchange, Halt, Op, Outcome, Run, Told,
};
use vstd::prelude::*;

verus! {

// ---------------------------------------------------------------------------
// The files under the directory of hook scripts.
// ---------------------------------------------------------------------------

/// Names seen from the directory they are in.
pub open spec fn paths_in(windows: bool, dir: Seq<char>, names: Seq<Seq<char>>) -> Seq<Seq<char>> {
    Seq::new(names.len(), |i: int| path_joined(windows, dir, names[i]))
}

/// What walking directories comes to: `files` were found so far, and `pending`
/// are the directories still to be listed, the last one next.
pub open spec fn play_walk(
    windows: bool,
    log: Seq<Exchange>,
    at: int,
    pending: Seq<Seq<char>>,
    files: Seq<Seq<char>>,
) -> Outcome<Seq<Seq<char>>>
    decreases log.len() - at, pending.len(),
{
    if pending.len() == 0 {
        Outcome::Done(files, at)
    } else {
        match asked_listing(log, at, pending.last()) {
            Outcome::Stop(s) => Outcome::Stop(s),
            Outcome::Done((dirs, found), next) => play_walk(
                windows,
                log,
                next,
                pending.drop_last() + paths_in(windows, pending.last(), dirs),
                files + paths_in(windows, pending.last(), found),
            ),
        }
    }
}

/// Appends names, seen from the directory they are in.
fn append_paths(windows: bool, dir: &str, names: &Vec<String>, out: &mut Vec<String>)
    ensures
        texts(final(out)@) == texts(old(out)@) + paths_in(windows, dir@, texts(names@)),
{
    let ghost start = out@;
    let ghost all = paths_in(windows, dir@, texts(names@));
    let mut i: usize = 0;
    assert(texts(start) + all.take(0) =~= texts(start));
    while i < names.len()
        invariant
            i <= names@.len(),
            all == paths_in(windows, dir@, texts(names@)),
            texts(out@) == texts(start) + all.take(i as int),
        decreases names@.len() - i,
    {
        let ghost seen = out@;
        out.push(join_path(windows, dir, names[i].as_str()));
        assert(texts(out@) =~= texts(seen).push(all[i as int]));
        assert(all.take(i + 1) =~= all.take(i as int).push(all[i as int]));
        assert(texts(out@) =~= texts(start) + all.take(i + 1));
        i = i + 1;
    }
    assert(all.take(i as int) =~= all);
}

/// The files under `dir`, at any depth, in the order in which they are found.
pub fn collect_files(run: &mut Run, dir: &str) -> (r: Result<Vec<String>, Halt>)
    ensures
        goes_on(*final(run), *old(run)),
        came_to(
            r,
            *final(run),
            play_walk(old(run).windows, old(run).log@, old(run).at as int, seq![dir@], seq![]),
        ),
{
    let mut pending = one(dir);
    let mut files: Vec<String> = Vec::new();
    assert(texts(files@) =~= seq![]);
    while pending.len() > 0
        invariant
            goes_on(*run, *old(run)),
            play_walk(
                old(run).windows,
                old(run).log@,
                old(run).at as int,
                seq![dir@],
                seq![],
            ) == play_walk(
                old(run).windows,
                run.log@,
                run.at as int,
                texts(pending@),
                texts(files@),
            ),
        decreases run.log@.len() - run.at, pending@.len(),
    {
        let ghost todo = texts(pending@);
        let next = match pending.pop() {
            Some(d) => d,
            None => String::new(),
        };
        assert(texts(pending@) =~= todo.drop_last());
        assert(next@ == todo.last());
        let (dirs, found) = run.ask_listing(next.as_str())?;
        append_paths(run.windows, next.as_str(), dirs, &mut pending);
        append_paths(run.windows, next.as_str(), found, &mut files);
    }
    assert(texts(pending@).len() == 0);
    Ok(files)
}

/// What listing the files under the directory of hook scripts comes to.
pub open spec fn play_githooks_dir_files(
    windows: bool,
    log: Seq<Exchange>,
    at: int,
    root: Seq<char>,
) -> Outcome<Seq<Seq<char>>> {
    match play_walk(windows, log, at, seq![path_joined(windows, root, HOOKS_DIR@)], seq![]) {
        Outcome::Stop(s) => Outcome::Stop(s),
        Outcome::Done(files, at) => Outcome::Done(sorted(path_order(windows), files), at),
    }
}

/// The files under the directory of hook scripts, at any depth, sorted, so that
/// the same files always come in the same order.
pub fn githooks_dir_files(run: &mut Run, root: &str) -> (r: Result<Vec<String>, Halt>)
    ensures
        goes_on(*final(run), *old(run)),
        came_to(
            r,
            *final(run),
            play_githooks_dir_files(old(run).windows, old(run).log@, old(run).at as int, root@),
        ),
{
    let dir = join_path(run.windows, root, HOOKS_DIR);
    let files = collect_files(run, dir.as_str())?;
    Ok(sort(paths_order(run.windows), files))
}

// ---------------------------------------------------------------------------
// The canonical text.
// ---------------------------------------------------------------------------

/// One line of the canonical text.
pub open spec fn content_line(path: Seq<char>, blob: Seq<char>) -> Seq<char> {
    path + ":"@ + blob + "\n"@
}

/// The lines for files and their blobs.
pub open spec fn content_lines(entries: Seq<(Seq<char>, Seq<char>)>) -> Seq<char> {
    concat(Seq::new(entries.len(), |i: int| content_line(entries[i].0, entries[i].1)))
}

/// The canonical text of a configuration and of files: a line each, the
/// configuration first, when it has a blob.
pub open spec fn canonical_text(
    config: Option<Seq<char>>,
    entries: Seq<(Seq<char>, Seq<char>)>,
) -> Seq<char> {
    (match config {
        Some(blob) => content_line(CONFIG_FILE@, blob),
        None => seq![],
    }) + content_lines(entries)
}

/// The texts of a list of pairs.
pub open spec fn pair_texts(v: Seq<(String, String)>) -> Seq<(Seq<char>, Seq<char>)> {
    Seq::new(v.len(), |i: int| (v[i].0@, v[i].1@))
}

impl Told for Vec<(String, String)> {
    type Meaning = Seq<(Seq<char>, Seq<char>)>;

    open spec fn told(self) -> Seq<(Seq<char>, Seq<char>)> {
        pair_texts(self@)
    }
}

/// Appends one line of the canonical text.
fn append_line(out: &mut String, path: &str, blob: &str)
    ensures
        final(out)@ == old(out)@ + content_line(path@, blob@),
{
    let ghost start = out@;
    out.append(path);
    out.append(":");
    out.append(blob);
    out.append("\n");
    assert(out@ =~= start + content_line(path@, blob@));
}

/// The canonical text of a configuration and of files, each given with its blob.
pub fn canonical(config: &Option<String>, entries: &Vec<(String, String)>) -> (r: String)
    ensures
        r@ == canonical_text(maybe(*config), pair_texts(entries@)),
{
    let mut out = String::new();
    if let Some(blob) = config {
        append_line(&mut out, CONFIG_FILE, blob.as_str());
        assert(out@ =~= content_line(CONFIG_FILE@, blob@));
    }
    let ghost start = out@;
    let ghost all = pair_texts(entries@);
    let ghost lines = Seq::new(all.len(), |i: int| content_line(all[i].0, all[i].1));
    let mut i: usize = 0;
    assert(start + concat(lines.take(0)) =~= start);
    while i < entries.len()
        invariant
            i <= entries@.len(),
            all == pair_texts(entries@),
            lines == Seq::new(all.len(), |i: int| content_line(all[i].0, all[i].1)),
            out@ == start + concat(lines.take(i as int)),
        decreases entries@.len() - i,
    {
        append_line(&mut out, entries[i].0.as_str(), entries[i].1.as_str());
        assert(lines.take(i + 1).drop_last() =~= lines.take(i as int));
        assert(out@ =~= start + concat(lines.take(i + 1)));
        i = i + 1;
    }
    assert(lines.take(i as int) =~= lines);
    out
}

/// What asking `git` for the blob of a file comes to.
pub open spec fn play_hash_object(log: Seq<Exchange>, at: int, path: Seq<char>) -> Outcome<
    Option<Seq<char>>,
> {
    play_git_capture(log, at, seq!["hash-object"@, path])
}

/// The blob that `git hash-object` gives a file.
pub fn hash_object(run: &mut Run, path: &str) -> (r: Result<Option<String>, Halt>)
    ensures
        goes_on(*final(run), *old(run)),
        came_to(r, *final(run), play_hash_object(old(run).log@, old(run).at as int, path@)),
{
    git_capture(run, two("hash-object", path))
}

/// Whether a file belongs to the signature and not to what is signed.
pub open spec fn under_trust(path: Seq<char>) -> bool {
    begins(path, HOOKS_DIR@ + "/trust/"@)
}

/// A text, or the empty one.
pub open spec fn or_empty(o: Option<Seq<char>>) -> Seq<char> {
    match o {
        Some(s) => s,
        None => seq![],
    }
}

/// What asking for the blobs of the files from the `i`-th on comes to.
pub open spec fn play_blobs(
    windows: bool,
    log: Seq<Exchange>,
    at: int,
    root: Seq<char>,
    files: Seq<Seq<char>>,
    exclude_trust: bool,
    i: int,
    out: Seq<(Seq<char>, Seq<char>)>,
) -> Outcome<Seq<(Seq<char>, Seq<char>)>>
    decreases files.len() - i,
{
    if i >= files.len() {
        Outcome::Done(out, at)
    } else {
        let path = path_rel(windows, root, files[i]);
        if exclude_trust && under_trust(path) {
            play_blobs(windows, log, at, root, files, exclude_trust, i + 1, out)
        } else {
            match play_hash_object(log, at, files[i]) {
                Outcome::Stop(s) => Outcome::Stop(s),
                Outcome::Done(blob, at) => play_blobs(
                    windows,
                    log,
                    at,
                    root,
                    files,
                    exclude_trust,
                    i + 1,
                    out.push((path, or_empty(blob))),
                ),
            }
        }
    }
}

/// What forming the canonical text of the repository comes to.
pub open spec fn play_canonical_content(
    windows: bool,
    log: Seq<Exchange>,
    at: int,
    root: Seq<char>,
    exclude_trust: bool,
) -> Outcome<Seq<char>> {
    match play_hash_object(log, at, path_joined(windows, root, CONFIG_FILE@)) {
        Outcome::Stop(s) => Outcome::Stop(s),
        Outcome::Done(config, at) => match play_githooks_dir_files(windows, log, at, root) {
            Outcome::Stop(s) => Outcome::Stop(s),
            Outcome::Done(files, at) => match play_blobs(
                windows,
                log,
                at,
                root,
                files,
                exclude_trust,
                0,
                seq![],
            ) {
                Outcome::Stop(s) => Outcome::Stop(s),
                Outcome::Done(entries, at) => Outcome::Done(canonical_text(config, entries), at),
            },
        },
    }
}

/// Appends a file and its blob.
fn append_pair(out: &mut Vec<(String, String)>, path: String, blob: String)
    ensures
        pair_texts(final(out)@) == pair_texts(old(out)@).push((path@, blob@)),
{
    let ghost start = out@;
    out.push((path, blob));
    assert(pair_texts(out@) =~= pair_texts(start).push((path@, blob@)));
}

/// The one deterministic text that both consent hashing and signing cover: a
/// `<path>:<blob>` line for the configuration, then one per file under the
/// directory of hook scripts in sorted order.
///
/// With `exclude_trust`, files under its `trust/` are left out. The signature is
/// computed over that form, since `trust/` is where the signature itself lives:
/// signing its own output would invalidate it the moment it is written.
pub fn canonical_content(run: &mut Run, root: &str, exclude_trust: bool) -> (r: Result<
    String,
    Halt,
>)
    ensures
        goes_on(*final(run), *old(run)),
        came_to(
            r,
            *final(run),
            play_canonical_content(
                old(run).windows,
                old(run).log@,
                old(run).at as int,
                root@,
                exclude_trust,
            ),
        ),
{
    let config = hash_object(run, join_path(run.windows, root, CONFIG_FILE).as_str())?;
    let files = githooks_dir_files(run, root)?;
    let prefix = cat2(HOOKS_DIR, "/trust/");
    let mut out: Vec<(String, String)> = Vec::new();
    assert(pair_texts(out@) =~= seq![]);
    let ghost all = texts(files@);
    let ghost start = run.at as int;
    let mut i: usize = 0;
    while i < files.len()
        invariant
            goes_on(*run, *old(run)),
            i <= files@.len(),
            all == texts(files@),
            prefix@ == HOOKS_DIR@ + "/trust/"@,
            start >= old(run).at,
            play_canonical_content(
                old(run).windows,
                old(run).log@,
                old(run).at as int,
                root@,
                exclude_trust,
            ) == (
            match play_blobs(
                old(run).windows,
                old(run).log@,
                start,
                root@,
                all,
                exclude_trust,
                0,
                seq![],
            ) {
                Outcome::Stop(s) => Outcome::Stop(s),
                Outcome::Done(entries, at) => Outcome::Done(
                    canonical_text(maybe(config), entries),
                    at,
                ),
            }),
            play_blobs(
                old(run).windows,
                old(run).log@,
                start,
                root@,
                all,
                exclude_trust,
                0,
                seq![],
            ) == play_blobs(
                old(run).windows,
                old(run).log@,
                run.at as int,
                root@,
                all,
                exclude_trust,
                i as int,
                pair_texts(out@),
            ),
        decreases files@.len() - i,
    {
        assert(all[i as int] == files@[i as int]@);
        let path = rel(run.windows, root, files[i].as_str());
        if !(exclude_trust && starts_with(path.as_str(), prefix.as_str())) {
            let blob = match hash_object(run, files[i].as_str())? {
                Some(b) => b,
                None => String::new(),
            };
            append_pair(&mut out, path, blob);
        }
        i = i + 1;
    }
    Ok(canonical(&config, &out))
}

// ---------------------------------------------------------------------------
// The consent hash.
// ---------------------------------------------------------------------------

/// What hashing all that consent covers comes to.
pub open spec fn play_consent_hash(
    windows: bool,
    log: Seq<Exchange>,
    at: int,
) -> Outcome<Option<Seq<char>>> {
    match play_repo_root(log, at) {
        Outcome::Stop(s) => Outcome::Stop(s),
        Outcome::Done(None, at) => Outcome::Done(None, at),
        Outcome::Done(Some(root), at) => match asked_flag(
            log,
            at,
            Op::IsFile,
            seq![path_joined(windows, root, CONFIG_FILE@)],
        ) {
            Outcome::Stop(s) => Outcome::Stop(s),
            Outcome::Done(false, at) => Outcome::Done(None, at),
            Outcome::Done(true, at) => match play_canonical_content(windows, log, at, root, false) {
                Outcome::Stop(s) => Outcome::Stop(s),
                Outcome::Done(content, at) => match play_git_hash_stdin(log, at, content) {
                    Outcome::Stop(s) => Outcome::Stop(s),
                    Outcome::Done(hash, at) => Outcome::Done(Some(hash), at),
                },
            },
        },
    }
}

/// Content hash covering everything executable: the configuration and every file
/// under the directory of hook scripts, its `trust/` included. Any byte change
/// anywhere flips it. `git` computes the object hashes. There is none without a
/// repository or without a configuration.
pub fn consent_hash(run: &mut Run) -> (r: Result<Option<String>, Halt>)
    ensures
        goes_on(*final(run), *old(run)),
        came_to(
            r,
            *final(run),
            play_consent_hash(old(run).windows, old(run).log@, old(run).at as int),
        ),
{
    let root = match repo_root(run)? {
        Some(root) => root,
        None => return Ok(None),
    };
    let config = join_path(run.windows, root.as_str(), CONFIG_FILE);
    if !run.ask_flag(Op::IsFile, one(config.as_str()))? {
        return Ok(None);
    }
    let content = canonical_content(run, root.as_str(), false)?;
    let hash = git_hash_stdin(run, content.as_str())?;
    Ok(Some(hash))
}

// ---------------------------------------------------------------------------
// What the canonical text tells apart.
// ---------------------------------------------------------------------------

/// Whether a file and its blob keep to one line of the canonical text: no line
/// feed in either, and no colon in the blob.
pub open spec fn one_line(path: Seq<char>, blob: Seq<char>) -> bool {
    !path.contains('\n') && !blob.contains('\n') && !blob.contains(':')
}

/// A line of the canonical text holds no line feed but that at its end.
proof fn lemma_line_end(path: Seq<char>, blob: Seq<char>)
    requires
        one_line(path, blob),
    ensures
        content_line(path, blob).len() > 0,
        content_line(path, blob).last() == '\n',
        forall|i: int|
            0 <= i < content_line(path, blob).len() - 1 ==> (#[trigger] content_line(path, blob)[i])
                != '\n',
{
    reveal_strlit(":");
    reveal_strlit("\n");
    let s = content_line(path, blob);
    assert(s.len() == path.len() + blob.len() + 2);
    assert forall|i: int| 0 <= i < s.len() - 1 implies (#[trigger] s[i]) != '\n' by {
        if i < path.len() {
            assert(s[i] == path[i]);
            assert(path.contains(path[i]));
        } else if i > path.len() {
            let j = i - path.len() - 1;
            assert(s[i] == blob[j]);
            assert(blob.contains(blob[j]));
        }
    }
}

/// A line of the canonical text tells the file and the blob.
proof fn lemma_line_tells(p: Seq<char>, b: Seq<char>, q: Seq<char>, c: Seq<char>)
    requires
        one_line(p, b),
        one_line(q, c),
        content_line(p, b) == content_line(q, c),
    ensures
        p == q,
        b == c,
{
    reveal_strlit(":");
    reveal_strlit("\n");
    let s = content_line(p, b);
    let t = content_line(q, c);
    assert(s.len() == p.len() + b.len() + 2);
    assert(t.len() == q.len() + c.len() + 2);
    if p.len() < q.len() {
        let j = q.len() - p.len() - 1;
        assert(t[q.len() as int] == ':');
        assert(s[q.len() as int] == b[j]);
        assert(b.contains(b[j]));
    }
    if q.len() < p.len() {
        let j = p.len() - q.len() - 1;
        assert(s[p.len() as int] == ':');
        assert(t[p.len() as int] == c[j]);
        assert(c.contains(c[j]));
    }
    assert(s.take(p.len() as int) =~= p);
    assert(t.take(q.len() as int) =~= q);
    assert(s.subrange(p.len() as int + 1, s.len() - 1) =~= b);
    assert(t.subrange(q.len() as int + 1, t.len() - 1) =~= c);
}

/// The last of the lines, and those before it.
proof fn lemma_last_line(entries: Seq<(Seq<char>, Seq<char>)>)
    requires
        entries.len() > 0,
    ensures
        content_lines(entries) == content_lines(entries.drop_last()) + content_line(
            entries.last().0,
            entries.last().1,
        ),
{
    let lines = Seq::new(entries.len(), |i: int| content_line(entries[i].0, entries[i].1));
    let fewer = entries.drop_last();
    assert(lines.drop_last() =~= Seq::new(
        fewer.len(),
        |i: int| content_line(fewer[i].0, fewer[i].1),
    ));
}

/// Lines tell the files and their blobs.
proof fn lemma_lines_tell(a: Seq<(Seq<char>, Seq<char>)>, b: Seq<(Seq<char>, Seq<char>)>)
    requires
        forall|i: int| 0 <= i < a.len() ==> one_line((#[trigger] a[i]).0, a[i].1),
        forall|i: int| 0 <= i < b.len() ==> one_line((#[trigger] b[i]).0, b[i].1),
        content_lines(a) == content_lines(b),
    ensures
        a == b,
    decreases a.len(),
{
    let s = content_lines(a);
    if a.len() > 0 {
        lemma_last_line(a);
        lemma_line_end(a[a.len() - 1].0, a[a.len() - 1].1);
    }
    if b.len() > 0 {
        lemma_last_line(b);
        lemma_line_end(b[b.len() - 1].0, b[b.len() - 1].1);
    }
    if a.len() == 0 || b.len() == 0 {
        if a.len() > 0 {
            assert(s.len() > 0);
        }
        if b.len() > 0 {
            assert(content_lines(b).len() > 0);
        }
        assert(a =~= b);
    } else {
        let before_a = content_lines(a.drop_last());
        let before_b = content_lines(b.drop_last());
        let last_a = content_line(a.last().0, a.last().1);
        let last_b = content_line(b.last().0, b.last().1);
        lemma_lines_end(a.drop_last());
        lemma_lines_end(b.drop_last());
        if before_a.len() < before_b.len() {
            let i = before_b.len() - 1 - before_a.len();
            assert(s[before_b.len() - 1] == '\n');
            assert(last_a[i] == '\n');
        }
        if before_b.len() < before_a.len() {
            let i = before_a.len() - 1 - before_b.len();
            assert(s[before_a.len() - 1] == '\n');
            assert(last_b[i] == '\n');
        }
        assert(s.take(before_a.len() as int) =~= before_a);
        assert(s.take(before_b.len() as int) =~= before_b);
        assert(s.skip(before_a.len() as int) =~= last_a);
        assert(s.skip(before_b.len() as int) =~= last_b);
        lemma_line_tells(a.last().0, a.last().1, b.last().0, b.last().1);
        lemma_lines_tell(a.drop_last(), b.drop_last());
        assert(a =~= a.drop_last().push(a.last()));
        assert(b =~= b.drop_last().push(b.last()));
    }
}

/// Lines end in a line feed.
proof fn lemma_lines_end(entries: Seq<(Seq<char>, Seq<char>)>)
    requires
        forall|i: int| 0 <= i < entries.len() ==> one_line((#[trigger] entries[i]).0, entries[i].1),
    ensures
        content_lines(entries).len() > 0 ==> content_lines(entries).last() == '\n',
{
    if entries.len() > 0 {
        lemma_last_line(entries);
        lemma_line_end(entries[entries.len() - 1].0, entries[entries.len() - 1].1);
    }
}

/// The configuration, if it has a blob, and the files.
spec fn with_config(
    config: Option<Seq<char>>,
    entries: Seq<(Seq<char>, Seq<char>)>,
) -> Seq<(Seq<char>, Seq<char>)> {
    match config {
        Some(blob) => seq![(CONFIG_FILE@, blob)] + entries,
        None => entries,
    }
}

/// The canonical text consists of the lines of the configuration and of the files.
proof fn lemma_canonical_lines(
    config: Option<Seq<char>>,
    entries: Seq<(Seq<char>, Seq<char>)>,
)
    ensures
        canonical_text(config, entries) == content_lines(with_config(config, entries)),
    decreases entries.len(),
{
    let all = with_config(config, entries);
    let none = Seq::<char>::empty();
    if entries.len() == 0 {
        match config {
            Some(blob) => {
                lemma_last_line(all);
                assert(content_lines(all.drop_last()) =~= none);
                assert(content_lines(entries) =~= none);
                assert(canonical_text(config, entries) =~= content_lines(all));
            },
            None => {
                assert(canonical_text(config, entries) =~= content_lines(all));
            },
        }
    } else {
        lemma_last_line(entries);
        lemma_last_line(all);
        assert(all.drop_last() =~= with_config(config, entries.drop_last()));
        assert(all.last() == entries.last());
        lemma_canonical_lines(config, entries.drop_last());
        assert(canonical_text(config, entries) =~= content_lines(all));
    }
}

/// Any change to what consent covers changes the canonical text: a configuration
/// with another blob, a file that is new or gone or has another name or blob, and
/// files in another order. Names and blobs keep to one line, and where there is no
/// configuration no file bears its name.
pub proof fn law_canonical_text_tells(
    config: Option<Seq<char>>,
    entries: Seq<(Seq<char>, Seq<char>)>,
    config2: Option<Seq<char>>,
    entries2: Seq<(Seq<char>, Seq<char>)>,
)
    requires
        config matches Some(blob) ==> one_line(CONFIG_FILE@, blob),
        config2 matches Some(blob) ==> one_line(CONFIG_FILE@, blob),
        forall|i: int|
            0 <= i < entries.len() ==> one_line((#[trigger] entries[i]).0, entries[i].1) && (config
                is Some && config2 is Some || entries[i].0 != CONFIG_FILE@),
        forall|i: int|
            0 <= i < entries2.len() ==> one_line((#[trigger] entries2[i]).0, entries2[i].1) && (
            config is Some && config2 is Some || entries2[i].0 != CONFIG_FILE@),
    ensures
        canonical_text(config, entries) == canonical_text(config2, entries2) ==> config == config2
            && entries == entries2,
{
    let a = with_config(config, entries);
    let b = with_config(config2, entries2);
    lemma_canonical_lines(config, entries);
    lemma_canonical_lines(config2, entries2);
    if canonical_text(config, entries) == canonical_text(config2, entries2) {
        assert forall|i: int| 0 <= i < a.len() implies one_line((#[trigger] a[i]).0, a[i].1) by {
            if config is Some && i > 0 {
                assert(a[i] == entries[i - 1]);
            }
        }
        assert forall|i: int| 0 <= i < b.len() implies one_line((#[trigger] b[i]).0, b[i].1) by {
            if config2 is Some && i > 0 {
                assert(b[i] == entries2[i - 1]);
            }
        }
        lemma_lines_tell(a, b);
        if config is Some && config2 is None {
            assert(b[0].0 == CONFIG_FILE@);
            assert(entries2[0].0 == CONFIG_FILE@);
        }
        if config is None && config2 is Some {
            assert(a[0].0 == CONFIG_FILE@);
            assert(entries[0].0 == CONFIG_FILE@);
        }
        if config is Some && config2 is Some {
            assert(a[0] == b[0]);
            assert(a.skip(1) =~= entries);
            assert(b.skip(1) =~= entries2);
        }
    }
}

/// The files other than those of the signature.
pub open spec fn files_signed(
    windows: bool,
    root: Seq<char>,
    files: Seq<Seq<char>>,
) -> Seq<Seq<char>> {
    files.filter(|f: Seq<char>| !under_trust(path_rel(windows, root, f)))
}

/// The files of the signature make no difference to the entries that are signed.
proof fn lemma_blobs_signed(
    windows: bool,
    log: Seq<Exchange>,
    at: int,
    root: Seq<char>,
    files: Seq<Seq<char>>,
    i: int,
    out: Seq<(Seq<char>, Seq<char>)>,
)
    requires
        0 <= i <= files.len(),
    ensures
        play_blobs(windows, log, at, root, files, true, i, out) == play_blobs(
            windows,
            log,
            at,
            root,
            files_signed(windows, root, files),
            false,
            files_signed(windows, root, files.take(i)).len() as int,
            out,
        ),
    decreases files.len() - i,
{
    let keep = |f: Seq<char>| !under_trust(path_rel(windows, root, f));
    let kept = files.filter(keep);
    let k = files.take(i).filter(keep).len() as int;
    if i < files.len() {
        assert(files.take(i + 1).drop_last() =~= files.take(i));
        let more = files.take(i + 1).filter(keep);
        assert(more == (if keep(files[i]) {
            files.take(i).filter(keep).push(files[i])
        } else {
            files.take(i).filter(keep)
        })) by {
            reveal(Seq::filter);
        }
        if keep(files[i]) {
            Seq::filter_distributes_over_add(files.take(i + 1), files.skip(i + 1), keep);
            assert(files.take(i + 1) + files.skip(i + 1) =~= files);
            assert(kept == more + files.skip(i + 1).filter(keep));
            assert(kept[k] == files[i]);
            match play_hash_object(log, at, files[i]) {
                Outcome::Stop(_) => {},
                Outcome::Done(blob, next) => {
                    lemma_blobs_signed(
                        windows,
                        log,
                        next,
                        root,
                        files,
                        i + 1,
                        out.push((path_rel(windows, root, files[i]), or_empty(blob))),
                    );
                },
            }
        } else {
            lemma_blobs_signed(windows, log, at, root, files, i + 1, out);
        }
    } else {
        assert(files.take(i) =~= files);
    }
}

/// What is signed does not depend on the files of the signature: the entries are
/// those of a repository that has none of them. So neither writing a signature
/// nor adding a signer makes the signature invalid.
pub proof fn law_signature_not_signed(
    windows: bool,
    log: Seq<Exchange>,
    at: int,
    root: Seq<char>,
    files: Seq<Seq<char>>,
)
    ensures
        play_blobs(windows, log, at, root, files, true, 0, seq![]) == play_blobs(
            windows,
            log,
            at,
            root,
            files_signed(windows, root, files),
            false,
            0,
            seq![],
        ),
{
    assert(files.take(0).filter(|f: Seq<char>| !under_trust(
        path_rel(windows, root, f),
    )).len() == 0) by {
        reveal(Seq::filter);
    }
    lemma_blobs_signed(windows, log, at, root, files, 0, seq![]);
}

} // verus!
