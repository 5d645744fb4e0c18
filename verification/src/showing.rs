//! What the prompts show: all that changed, and all that is not covered.
use crate::adding::lemma_tail_first;
use crate::config::{CONFIG_FILE, HOOKS_DIR};
use crate::content::{or_empty, play_githooks_dir_files, play_hash_object};
use crate::covering::{found_files, is_fair, lemma_found, lemma_rel_differs, plain, same_content};
use crate::keeping::{
    blobs_from, file_at, good_hash, hash_at, honest, idle, idles, is_word, kept_at, lemma_hash_told,
    lemma_idles, lemma_options_differ, lemma_walk_idles, lemma_word_captured, manifest_of, tells,
    Kept,
};
use crate::paths::{law_rel_of_join, path_joined, path_rel};
use crate::prompt::{
    accepted_blob, added_shown, change_heading, changed_shown, covered, play_change_prompt_body,
    play_changes, play_git_diff_blob_file, removal_shown,
};
use crate::text::{concat, texts, trimmed, trimmed_end};
use crate::tree::{lead_to, lemma_rel, lies_under, plain_root, tail};
use crate::world::{asked_text, said, succeeded, Exchange, Op, Outcome, Reply};
use vstd::prelude::*;

verus! {

// ---------------------------------------------------------------------------
// What changed.
// ---------------------------------------------------------------------------

/// Whether the last line of a manifest about a file gives it a blob.
pub open spec fn gives(
    manifest: Seq<(Seq<char>, Seq<char>)>,
    name: Seq<char>,
    blob: Seq<char>,
) -> bool {
    exists|j: int|
        0 <= j < manifest.len() && #[trigger] manifest[j] == (name, blob) && forall|l: int|
            j < l < manifest.len() ==> (#[trigger] manifest[l]).0 != name
}

/// Whether a manifest has a line about a file.
pub open spec fn is_listed(manifest: Seq<(Seq<char>, Seq<char>)>, name: Seq<char>) -> bool {
    exists|j: int| 0 <= j < manifest.len() && (#[trigger] manifest[j]).0 == name
}

/// The blob that a file has in a world, or nothing where it has none.
pub open spec fn blob_in(k: Kept, root: Seq<char>, name: Seq<char>) -> Seq<char> {
    match hash_at(k, path_joined(k.windows, root, name)) {
        Some(blob) => blob,
        None => seq![],
    }
}

/// Whether an exchange compared two blobs, and with which outcome.
pub open spec fn compared(e: Exchange, old: Seq<char>, new: Seq<char>, diff: Seq<char>) -> bool {
    &&& e.request.op == Op::GitCapture
    &&& texts(e.request.words@) == seq!["--no-pager"@, "diff"@, old, new]
    &&& diff == (match e.reply {
        Reply::Ran(Ok(f)) => if succeeded(f) {
            trimmed(said(f))
        } else {
            seq![]
        },
        _ => seq![],
    })
}

/// Whether a piece of the prompt is what there is to say of a file: nothing where it is as
/// it was accepted, how it differs where it is not, and its text where it is new.
pub open spec fn tells_of(
    k: Kept,
    log: Seq<Exchange>,
    from: int,
    to: int,
    root: Seq<char>,
    manifest: Seq<(Seq<char>, Seq<char>)>,
    name: Seq<char>,
    piece: Seq<char>,
) -> bool {
    &&& gives(manifest, name, blob_in(k, root, name)) ==> piece == Seq::<char>::empty()
    &&& forall|old: Seq<char>| #[trigger]
        gives(manifest, name, old) && old != blob_in(k, root, name) ==> exists|
            j: int,
            diff: Seq<char>,
        |
            from <= j < to && #[trigger] compared(log[j], old, blob_in(k, root, name), diff)
                && piece == "--- changed: "@ + name + " ---\n"@ + diff + "\n"@
    &&& !is_listed(manifest, name) ==> piece == "--- added: "@ + name + " ---\n"@ + (match file_at(
        k,
        path_joined(k.windows, root, name),
    ) {
        Some(text) => trimmed_end(text) + "\n"@,
        None => seq![],
    })
}

/// The blob that a manifest gives a file is that of the last line about it.
pub proof fn law_accepted_blob(
    manifest: Seq<(Seq<char>, Seq<char>)>,
    name: Seq<char>,
    blob: Seq<char>,
)
    ensures
        accepted_blob(manifest, name) == Some(blob) <==> gives(manifest, name, blob),
        accepted_blob(manifest, name) is None <==> !is_listed(manifest, name),
    decreases manifest.len(),
{
    if manifest.len() > 0 {
        let n = manifest.len() - 1;
        let fewer = manifest.drop_last();
        law_accepted_blob(fewer, name, blob);
        if manifest.last().0 == name {
            assert(manifest[n].0 == name);
            if manifest.last().1 == blob {
                assert(manifest[n] == (name, blob));
            }
        } else {
            if gives(fewer, name, blob) {
                let j = choose|j: int|
                    0 <= j < fewer.len() && #[trigger] fewer[j] == (name, blob) && forall|l: int|
                        j < l < fewer.len() ==> (#[trigger] fewer[l]).0 != name;
                assert(manifest[j] == (name, blob));
                assert forall|l: int| j < l < manifest.len() implies (#[trigger] manifest[l]).0
                    != name by {
                    if l < n {
                        assert(fewer[l] == manifest[l]);
                    }
                }
            }
            if gives(manifest, name, blob) {
                let j = choose|j: int|
                    0 <= j < manifest.len() && #[trigger] manifest[j] == (name, blob) && forall|
                        l: int,
                    |
                        j < l < manifest.len() ==> (#[trigger] manifest[l]).0 != name;
                assert(j < n);
                assert(fewer[j] == (name, blob));
                assert forall|l: int| j < l < fewer.len() implies (#[trigger] fewer[l]).0
                    != name by {
                    assert(manifest[l].0 != name);
                }
            }
            if is_listed(fewer, name) {
                let j = choose|j: int| 0 <= j < fewer.len() && (#[trigger] fewer[j]).0 == name;
                assert(manifest[j].0 == name);
            }
            if is_listed(manifest, name) {
                let j = choose|j: int|
                    0 <= j < manifest.len() && (#[trigger] manifest[j]).0 == name;
                assert(fewer[j].0 == name);
            }
        }
    }
}

/// Texts one after another, with one more at their front.
pub proof fn lemma_concat_front<A>(first: Seq<A>, rest: Seq<Seq<A>>)
    ensures
        concat(seq![first] + rest) == first + concat(rest),
    decreases rest.len(),
{
    let all = seq![first] + rest;
    if rest.len() == 0 {
        assert(all.drop_last() =~= seq![]);
        assert(concat(all.drop_last()) =~= seq![]);
        assert(all.last() == first);
        assert(concat(all) =~= first);
        assert(first + concat(rest) =~= first);
    } else {
        assert(all.drop_last() =~= seq![first] + rest.drop_last());
        assert(all.last() == rest.last());
        lemma_concat_front(first, rest.drop_last());
        assert(concat(all) =~= first + concat(rest));
    }
}

/// Comparing files with the manifest leaves everything as it is.
proof fn lemma_changes_idle(
    windows: bool,
    log: Seq<Exchange>,
    at: int,
    root: Seq<char>,
    manifest: Seq<(Seq<char>, Seq<char>)>,
    current: Seq<Seq<char>>,
    i: int,
    out: Seq<char>,
)
    requires
        0 <= at <= log.len(),
        0 <= i,
    ensures
        play_changes(windows, log, at, root, manifest, current, i, out) matches Outcome::Done(
            _,
            to,
        ) ==> idles(log, at, to),
    decreases current.len() - i,
{
    lemma_options_differ();
    reveal_strlit("--no-pager");
    reveal_strlit("config");
    assert("--no-pager"@.len() != "config"@.len());
    if i < current.len() {
        let path = path_joined(windows, root, current[i]);
        match play_hash_object(log, at, path) {
            Outcome::Done(cur, a) => {
                assert(texts(log[at].request.words@) == seq!["hash-object"@, path]);
                assert(texts(log[at].request.words@)[0] == "hash-object"@);
                match accepted_blob(manifest, current[i]) {
                    Some(old) => {
                        if old == or_empty(cur) {
                            lemma_changes_idle(
                                windows,
                                log,
                                a,
                                root,
                                manifest,
                                current,
                                i + 1,
                                out,
                            );
                        } else {
                            match play_git_diff_blob_file(log, a, old, path) {
                                Outcome::Done(diff, b) => {
                                    assert(texts(log[a].request.words@)[0] == "hash-object"@);
                                    assert(texts(log[a + 1].request.words@)[0] == "--no-pager"@);
                                    assert(b == a + 2);
                                    lemma_changes_idle(
                                        windows,
                                        log,
                                        b,
                                        root,
                                        manifest,
                                        current,
                                        i + 1,
                                        out + changed_shown(current[i], diff),
                                    );
                                },
                                _ => {},
                            }
                        }
                    },
                    None => {
                        match asked_text(log, a, Op::ReadText, seq![path]) {
                            Outcome::Done(text, b) => {
                                lemma_changes_idle(
                                    windows,
                                    log,
                                    b,
                                    root,
                                    manifest,
                                    current,
                                    i + 1,
                                    out + added_shown(current[i], text),
                                );
                            },
                            _ => {},
                        }
                    },
                }
            },
            _ => {},
        }
    }
}

/// A wider range of exchanges shows as much.
proof fn lemma_tells_wider(
    k: Kept,
    log: Seq<Exchange>,
    from: int,
    mid: int,
    to: int,
    root: Seq<char>,
    manifest: Seq<(Seq<char>, Seq<char>)>,
    name: Seq<char>,
    piece: Seq<char>,
)
    requires
        from <= mid,
        tells_of(k, log, mid, to, root, manifest, name, piece),
    ensures
        tells_of(k, log, from, to, root, manifest, name, piece),
{
    let new = blob_in(k, root, name);
    assert forall|old: Seq<char>|
        #[trigger] gives(manifest, name, old) && old != new implies exists|
        j: int,
        diff: Seq<char>,
    |
        from <= j < to && #[trigger] compared(log[j], old, new, diff) && piece == "--- changed: "@
            + name + " ---\n"@ + diff + "\n"@ by {
        let (j, diff) = choose|j: int, diff: Seq<char>|
            mid <= j < to && #[trigger] compared(log[j], old, new, diff) && piece
                == "--- changed: "@ + name + " ---\n"@ + diff + "\n"@;
        assert(compared(log[j], old, new, diff));
    }
}

/// The pieces that comparing files with the manifest adds, one for each file.
proof fn lemma_changes_told(
    k: Kept,
    log: Seq<Exchange>,
    at: int,
    root: Seq<char>,
    manifest: Seq<(Seq<char>, Seq<char>)>,
    current: Seq<Seq<char>>,
    i: int,
    out: Seq<char>,
    text: Seq<char>,
    to: int,
) -> (pieces: Seq<Seq<char>>)
    requires
        0 <= at <= log.len(),
        0 <= i <= current.len(),
        good_hash(k.hash),
        play_changes(k.windows, log, at, root, manifest, current, i, out) == Outcome::Done(
            text,
            to,
        ),
        forall|j: int| at <= j < to ==> tells(k, #[trigger] log[j]),
    ensures
        pieces.len() == current.len() - i,
        text == out + concat(pieces),
        forall|j: int|
            0 <= j < pieces.len() ==> tells_of(
                k,
                log,
                at,
                to,
                root,
                manifest,
                current[i + j],
                #[trigger] pieces[j],
            ),
    decreases current.len() - i,
{
    let w = k.windows;
    if i >= current.len() {
        assert(out + concat(Seq::<Seq<char>>::empty()) =~= out);
        seq![]
    } else {
        let name = current[i];
        let path = path_joined(w, root, name);
        lemma_hash_told(k, log, at, path);
        let cur = play_hash_object(log, at, path)->Done_0;
        let a = at + 1;
        match accepted_blob(manifest, name) {
            Some(o) => {
                if o == or_empty(cur) {
                    lemma_changes_idle(w, log, a, root, manifest, current, i + 1, out);
                } else {
                    let diff = play_git_diff_blob_file(log, a, o, path)->Done_0;
                    lemma_changes_idle(
                        w,
                        log,
                        a + 2,
                        root,
                        manifest,
                        current,
                        i + 1,
                        out + changed_shown(name, diff),
                    );
                }
            },
            None => {
                let read = asked_text(log, a, Op::ReadText, seq![path])->Done_0;
                lemma_changes_idle(
                    w,
                    log,
                    a + 1,
                    root,
                    manifest,
                    current,
                    i + 1,
                    out + added_shown(name, read),
                );
            },
        }
        assert(tells(k, log[at]));
        assert(or_empty(cur) == blob_in(k, root, name));
        let old = accepted_blob(manifest, name);
        law_accepted_blob(manifest, name, or_empty(cur));
        let (piece, b) = if old is Some && old->Some_0 == or_empty(cur) {
            assert forall|x: Seq<char>| #[trigger] gives(manifest, name, x) implies x == or_empty(
                cur,
            ) by {
                law_accepted_blob(manifest, name, x);
            }
            (Seq::<char>::empty(), a)
        } else if old is Some {
            let o = old->Some_0;
            law_accepted_blob(manifest, name, o);
            let diff = play_git_diff_blob_file(log, a, o, path)->Done_0;
            let ws = texts(log[a].request.words@);
            assert(ws == seq!["hash-object"@, "-w"@, path]);
            assert(ws.last() == path && ws[0] == "hash-object"@);
            lemma_options_differ();
            assert(tells(k, log[a]));
            let f = log[a].reply->Ran_0->Ok_0;
            if k.files.contains_key(path) {
                assert(is_word((k.hash)(k.files[path])));
                lemma_word_captured(f, (k.hash)(k.files[path]));
            }
            assert(compared(log[a + 1], o, or_empty(cur), diff));
            let piece = changed_shown(name, diff);
            assert forall|x: Seq<char>| #[trigger] gives(manifest, name, x) && x != or_empty(
                cur,
            ) implies exists|j: int, d: Seq<char>|
                at <= j < to && #[trigger] compared(log[j], x, or_empty(cur), d) && piece
                    == "--- changed: "@ + name + " ---\n"@ + d + "\n"@ by {
                law_accepted_blob(manifest, name, x);
                assert(compared(log[a + 1], x, or_empty(cur), diff));
            }
            (piece, a + 2)
        } else {
            assert(texts(log[a].request.words@) == seq![path]);
            assert(texts(log[a].request.words@)[0] == path);
            assert(tells(k, log[a]));
            assert forall|x: Seq<char>| !(#[trigger] gives(manifest, name, x)) by {
                law_accepted_blob(manifest, name, x);
            }
            (added_shown(name, file_at(k, path)), a + 1)
        };
        let rest = lemma_changes_told(
            k,
            log,
            b,
            root,
            manifest,
            current,
            i + 1,
            out + piece,
            text,
            to,
        );
        let pieces = seq![piece] + rest;
        lemma_concat_front(piece, rest);
        assert(out + concat(pieces) =~= out + piece + concat(rest));
        assert forall|j: int| 0 <= j < pieces.len() implies tells_of(
            k,
            log,
            at,
            to,
            root,
            manifest,
            current[i + j],
            #[trigger] pieces[j],
        ) by {
            if j > 0 {
                assert(pieces[j] == rest[j - 1]);
                assert(current[i + j] == current[i + 1 + (j - 1)]);
                lemma_tells_wider(
                    k,
                    log,
                    at,
                    b,
                    to,
                    root,
                    manifest,
                    current[i + j],
                    rest[j - 1],
                );
            } else {
                assert(pieces[0] == piece);
            }
        }
        pieces
    }
}

/// The names of what consent covers: the configuration, and the files of the hooks.
pub open spec fn names_covered(k: Kept, root: Seq<char>, files: Seq<Seq<char>>) -> Seq<Seq<char>> {
    seq![".githooks.toml"@] + Seq::new(
        files.len(),
        |i: int| path_rel(k.windows, root, files[i]),
    )
}

/// Whether a text is the heading, then a piece for each covered file, then one for each
/// file that was accepted and is not covered any more.
pub open spec fn is_made_of(
    k: Kept,
    log: Seq<Exchange>,
    from: int,
    to: int,
    root: Seq<char>,
    manifest: Seq<(Seq<char>, Seq<char>)>,
    names: Seq<Seq<char>>,
    body: Seq<char>,
    pieces: Seq<Seq<char>>,
    gone: Seq<Seq<char>>,
) -> bool {
    &&& body
        == "this repository's hooks CHANGED since you last accepted them. review the changes:\n\n"@
        + concat(pieces) + concat(gone)
    &&& pieces.len() == names.len()
    &&& forall|i: int|
        0 <= i < names.len() ==> tells_of(
            k,
            log,
            from,
            to,
            root,
            manifest,
            names[i],
            #[trigger] pieces[i],
        )
    &&& gone.len() == manifest.len()
    &&& forall|i: int|
        0 <= i < manifest.len() ==> #[trigger] gone[i] == (if names.contains(manifest[i].0) {
            Seq::<char>::empty()
        } else {
            "--- removed: "@ + manifest[i].0 + " ---\n"@
        })
}

/// A prompt about changed hooks says of every covered file, the configuration among them,
/// how it differs from what was accepted, or that it is new, and of every file that was
/// accepted and is gone that it was removed; and it says nothing else. Forming it changes
/// nothing.
pub proof fn law_changes_are_shown(
    k: Kept,
    log: Seq<Exchange>,
    at: int,
    root: Seq<char>,
    manifest: Seq<(Seq<char>, Seq<char>)>,
    body: Seq<char>,
    to: int,
)
    requires
        0 <= at <= log.len(),
        good_hash(k.hash),
        play_change_prompt_body(k.windows, log, at, root, manifest) == Outcome::Done(body, to),
        honest(k, log, at, to),
    ensures
        exists|pieces: Seq<Seq<char>>, gone: Seq<Seq<char>>|
            is_made_of(
                k,
                log,
                at,
                to,
                root,
                manifest,
                names_covered(k, root, found_files(k, log, at, root)),
                body,
                pieces,
                gone,
            ),
        at <= to,
        play_githooks_dir_files(k.windows, log, at, root) is Done,
        play_githooks_dir_files(k.windows, log, at, root)->Done_1 <= to,
        kept_at(k, log, at, to) == k,
{
    let w = k.windows;
    let files = found_files(k, log, at, root);
    let a = play_githooks_dir_files(w, log, at, root)->Done_1;
    let current = covered(w, root, files);
    let names = names_covered(k, root, files);
    assert(current =~= names);
    lemma_walk_idles(w, log, at, seq![path_joined(w, root, HOOKS_DIR@)], seq![]);
    lemma_changes_idle(w, log, a, root, manifest, current, 0, change_heading());
    let text = play_changes(w, log, a, root, manifest, current, 0, change_heading())->Done_0;
    assert forall|i: int| at <= i < to implies idle(#[trigger] log[i]) by {
        if i < a {
            assert(idle(log[i]));
        }
    }
    lemma_idles(k, log, at, to);
    let pieces = lemma_changes_told(
        k,
        log,
        a,
        root,
        manifest,
        current,
        0,
        change_heading(),
        text,
        to,
    );
    let gone = Seq::new(manifest.len(), |i: int| removal_shown(manifest[i].0, current));
    assert forall|i: int| 0 <= i < names.len() implies tells_of(
        k,
        log,
        at,
        to,
        root,
        manifest,
        names[i],
        #[trigger] pieces[i],
    ) by {
        assert(current[0 + i] == names[i]);
        lemma_tells_wider(k, log, at, a, to, root, manifest, names[i], pieces[i]);
    }
    assert(is_made_of(k, log, at, to, root, manifest, names, body, pieces, gone));
}

/// Which pairs the blobs of files are.
proof fn lemma_blobs_are(
    windows: bool,
    k: Kept,
    root: Seq<char>,
    files: Seq<Seq<char>>,
    i: int,
    name: Seq<char>,
    blob: Seq<char>,
)
    requires
        0 <= i,
    ensures
        blobs_from(windows, k, root, files, i).contains((name, blob)) <==> exists|j: int|
            i <= j < files.len() && path_rel(windows, root, #[trigger] files[j]) == name && hash_at(
                k,
                files[j],
            ) == Some(blob),
    decreases files.len() - i,
{
    let all = blobs_from(windows, k, root, files, i);
    if i < files.len() {
        let rest = blobs_from(windows, k, root, files, i + 1);
        lemma_blobs_are(windows, k, root, files, i + 1, name, blob);
        let first = path_rel(windows, root, files[i]);
        match hash_at(k, files[i]) {
            Some(b) => {
                assert(all == seq![(first, b)] + rest);
                if all.contains((name, blob)) {
                    let j = choose|j: int| 0 <= j < all.len() && all[j] == (name, blob);
                    if j > 0 {
                        assert(rest[j - 1] == (name, blob));
                    }
                }
                if rest.contains((name, blob)) {
                    let j = choose|j: int| 0 <= j < rest.len() && rest[j] == (name, blob);
                    assert(all[j + 1] == (name, blob));
                }
                assert(all[0] == (first, b));
            },
            None => {
                assert(all =~= rest);
            },
        }
    }
}

/// Where texts one after another make nothing, each is nothing.
proof fn lemma_concat_nothing(list: Seq<Seq<char>>, i: int)
    requires
        concat(list).len() == 0,
        0 <= i < list.len(),
    ensures
        list[i] == Seq::<char>::empty(),
    decreases list.len(),
{
    if i < list.len() - 1 {
        assert(list.drop_last()[i] == list[i]);
        lemma_concat_nothing(list.drop_last(), i);
    } else {
        assert(list[i] =~= Seq::<char>::empty());
    }
}

/// Whether a file of the hooks is found by its name, seen from the repository, as it is by
/// its path. Where `/` separates the names of a path, the two are the same text.
pub open spec fn found_by_name(k: Kept, root: Seq<char>) -> bool {
    forall|path: Seq<char>| #[trigger]
        lies_under(k.windows, path_joined(k.windows, root, HOOKS_DIR@), path) ==> file_at(
            k,
            path_joined(k.windows, root, path_rel(k.windows, root, path)),
        ) == file_at(k, path)
}

/// The manifest that was written when hooks were accepted in one world, compared with
/// another: where the prompt about changed hooks says nothing below its heading, the
/// content is the same in both. So any change of the content shows.
pub proof fn law_changed_content_is_shown(
    before: Kept,
    files: Seq<Seq<char>>,
    k: Kept,
    log: Seq<Exchange>,
    at: int,
    root: Seq<char>,
    body: Seq<char>,
    to: int,
)
    requires
        0 <= at <= log.len(),
        good_hash(k.hash),
        before.hash == k.hash,
        before.windows == k.windows,
        is_fair(before, root),
        is_fair(k, root),
        found_by_name(k, root),
        before.files.contains_key(path_joined(k.windows, root, CONFIG_FILE@)),
        forall|path: Seq<char>| #[trigger]
            files.contains(path) <==> before.files.contains_key(path) && lies_under(
                k.windows,
                path_joined(k.windows, root, HOOKS_DIR@),
                path,
            ),
        play_change_prompt_body(
            k.windows,
            log,
            at,
            root,
            manifest_of(k.windows, before, root, files),
        ) == Outcome::Done(body, to),
        honest(k, log, at, to),
        body.len()
            <= "this repository's hooks CHANGED since you last accepted them. review the changes:\n\n"@.len(),
    ensures
        same_content(before, k, root, false),
{
    let w = k.windows;
    let dir = path_joined(w, root, HOOKS_DIR@);
    let config = path_joined(w, root, CONFIG_FILE@);
    let manifest = manifest_of(w, before, root, files);
    let all = seq![config] + files;
    let found = found_files(k, log, at, root);
    let names = names_covered(k, root, found);
    law_changes_are_shown(k, log, at, root, manifest, body, to);
    lemma_found(k, log, at, root, to);
    let (pieces, gone) = choose|pieces: Seq<Seq<char>>, gone: Seq<Seq<char>>|
        is_made_of(k, log, at, to, root, manifest, names, body, pieces, gone);
    assert(concat(pieces).len() == 0 && concat(gone).len() == 0);
    lemma_config_name(w, root);
    assert(names[0] == CONFIG_FILE@);
    assert forall|i: int| 0 <= i < names.len() implies gives(
        manifest,
        #[trigger] names[i],
        blob_in(k, root, names[i]),
    ) by {
        lemma_concat_nothing(pieces, i);
        lemma_says_something(k, log, at, to, root, manifest, names[i], pieces[i]);
    }
    assert(file_at(before, config) == file_at(k, config)) by {
        assert(gives(manifest, names[0], blob_in(k, root, names[0])));
        let j = choose|j: int|
            0 <= j < manifest.len() && #[trigger] manifest[j] == (
                names[0],
                blob_in(k, root, names[0]),
            ) && forall|l: int| j < l < manifest.len() ==> (#[trigger] manifest[l]).0 != names[0];
        assert(manifest.contains((names[0], blob_in(k, root, names[0]))));
        lemma_blobs_are(w, before, root, all, 0, names[0], blob_in(k, root, names[0]));
        let m = choose|m: int|
            0 <= m < all.len() && path_rel(w, root, #[trigger] all[m]) == names[0] && hash_at(
                before,
                all[m],
            ) == Some(blob_in(k, root, names[0]));
        if m > 0 {
            assert(all[m] == files[m - 1]);
            assert(files.contains(files[m - 1]));
            lemma_script_name(before, root, all[m]);
        }
        assert(all[m] == config);
        assert(is_word((k.hash)(before.files[config])));
    }
    assert forall|path: Seq<char>| #[trigger] lies_under(w, dir, path) implies file_at(before, path)
        == file_at(k, path) by {
        if k.files.contains_key(path) {
            assert(found.contains(path));
            let i = choose|i: int| 0 <= i < found.len() && found[i] == path;
            let name = names[i + 1];
            assert(name == path_rel(w, root, path));
            assert(gives(manifest, names[i + 1], blob_in(k, root, names[i + 1])));
            let j = choose|j: int|
                0 <= j < manifest.len() && #[trigger] manifest[j] == (
                    name,
                    blob_in(k, root, name),
                ) && forall|l: int| j < l < manifest.len() ==> (#[trigger] manifest[l]).0 != name;
            assert(manifest.contains((name, blob_in(k, root, name))));
            lemma_blobs_are(w, before, root, all, 0, name, blob_in(k, root, name));
            let m = choose|m: int|
                0 <= m < all.len() && path_rel(w, root, #[trigger] all[m]) == name && hash_at(
                    before,
                    all[m],
                ) == Some(blob_in(k, root, name));
            if m == 0 {
                lemma_script_name(k, root, path);
            } else {
                assert(all[m] == files[m - 1]);
                assert(files.contains(files[m - 1]));
                lemma_rel_differs(before, k, root, all[m], path);
            }
            assert(file_at(k, path_joined(w, root, name)) == file_at(k, path));
            assert((k.hash)(before.files[path]) == (k.hash)(k.files[path]));
        } else if before.files.contains_key(path) {
            assert(files.contains(path));
            let m = choose|m: int| 0 <= m < files.len() && files[m] == path;
            let name = path_rel(w, root, path);
            let blob = (k.hash)(before.files[path]);
            assert(all[m + 1] == path);
            lemma_blobs_are(w, before, root, all, 0, name, blob);
            assert(manifest.contains((name, blob)));
            let i = choose|i: int| 0 <= i < manifest.len() && manifest[i] == (name, blob);
            lemma_concat_nothing(gone, i);
            reveal_strlit("--- removed: ");
            assert(names.contains(name));
            let n = choose|n: int| 0 <= n < names.len() && names[n] == name;
            if n == 0 {
                lemma_script_name(before, root, path);
            } else {
                let other = found[n - 1];
                assert(found.contains(other));
                lemma_rel_differs(before, k, root, path, other);
            }
        }
    }
}

/// Of a file that is not as it was accepted there is something to say.
proof fn lemma_says_something(
    k: Kept,
    log: Seq<Exchange>,
    from: int,
    to: int,
    root: Seq<char>,
    manifest: Seq<(Seq<char>, Seq<char>)>,
    name: Seq<char>,
    piece: Seq<char>,
)
    requires
        tells_of(k, log, from, to, root, manifest, name, piece),
        piece.len() == 0,
    ensures
        gives(manifest, name, blob_in(k, root, name)),
{
    reveal_strlit("--- added: ");
    reveal_strlit("--- changed: ");
    let new = blob_in(k, root, name);
    if !is_listed(manifest, name) {
    } else {
        let old = accepted_blob(manifest, name)->Some_0;
        law_accepted_blob(manifest, name, old);
        if old != new {
            let (j, diff) = choose|j: int, diff: Seq<char>|
                from <= j < to && #[trigger] compared(log[j], old, new, diff) && piece
                    == "--- changed: "@ + name + " ---\n"@ + diff + "\n"@;
        }
    }
}

/// The name of the configuration, seen from the repository.
proof fn lemma_config_name(windows: bool, root: Seq<char>)
    requires
        plain_root(windows, root),
    ensures
        path_rel(windows, root, path_joined(windows, root, CONFIG_FILE@)) == CONFIG_FILE@,
        CONFIG_FILE@ == ".githooks.toml"@,
{
    reveal_strlit(".githooks.toml");
    let name = CONFIG_FILE@;
    assert(name == ".githooks.toml"@);
    assert(name.len() == 14 && name[0] == '.' && name[1] == 'g' && name.last() == 'l');
    law_rel_of_join(windows, root, name);
}

/// The name of a file of the hooks is not that of the configuration.
proof fn lemma_script_name(k: Kept, root: Seq<char>, path: Seq<char>)
    requires
        is_fair(k, root),
        k.files.contains_key(path),
        lies_under(k.windows, path_joined(k.windows, root, HOOKS_DIR@), path),
    ensures
        path_rel(k.windows, root, path) != CONFIG_FILE@,
{
    reveal_strlit(".githooks.toml");
    reveal_strlit(".githooks");
    let w = k.windows;
    let dir = path_joined(w, root, HOOKS_DIR@);
    let names = choose|names: Seq<Seq<char>>| lead_to(w, dir, names, path);
    assert(plain(names));
    lemma_rel(w, root, names);
    lemma_tail_first('/', names);
    let r = HOOKS_DIR@ + tail('/', names);
    assert(r[9] == '/');
    assert(CONFIG_FILE@[9] == '.');
}

} // verus!
