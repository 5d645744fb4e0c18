//! A command that is added is there, and accepted.
use crate::commands::play_add;
use crate::config::{with_command, CONFIG_FILE, HOOKS_DIR};
use crate::consent::{
    decision, law_decision_holds, law_other_content_is_undecided, play_record_consent, verdict,
    Decision,
};
use crate::content::{play_consent_hash, play_githooks_dir_files};
use crate::covering::{
    found_files, is_fair, law_consent_hash_tells_content, lemma_consent_ends, plain, same_content,
};
use crate::document::{entries_of, prints_well, toml_printed};
use crate::git::play_need_root;
use crate::keeping::{
    file_at, good_hash, honest, idle, kept_after, kept_at, lemma_consent_told, lemma_idles,
    lemma_options_differ, lemma_parts, lemma_record_after, lemma_recorded, tells, values,
    yields_root, Kept,
};
use crate::paths::{is_name, lemma_name_joined, path_joined, up_to_name};
use crate::text::texts;
use crate::tree::{
    all_names, descended, lemma_descended, lemma_hooks_dir, plain_root, separator, tail,
};
use crate::world::{Exchange, Outcome};
use vstd::prelude::*;

verus! {

/// The configuration is not below the directory of hook scripts.
proof fn lemma_config_apart(windows: bool, root: Seq<char>, names: Seq<Seq<char>>)
    requires
        plain_root(windows, root),
        all_names(windows, names),
    ensures
        descended(windows, path_joined(windows, root, HOOKS_DIR@), names) != path_joined(
            windows,
            root,
            CONFIG_FILE@,
        ),
{
    reveal_strlit(".");
    reveal_strlit("..");
    reveal_strlit(".githooks");
    reveal_strlit(".githooks.toml");
    let dir = path_joined(windows, root, HOOKS_DIR@);
    let sep = separator(windows);
    lemma_hooks_dir(windows, root);
    lemma_descended(windows, dir, names);
    assert(CONFIG_FILE@ == ".githooks.toml"@ && HOOKS_DIR@ == ".githooks"@);
    assert(CONFIG_FILE@.len() == 14 && HOOKS_DIR@.len() == 9);
    assert(is_name(windows, CONFIG_FILE@));
    lemma_name_joined(windows, root, CONFIG_FILE@);
    let n = up_to_name(windows, root).len() as int;
    let path = descended(windows, dir, names);
    assert(path_joined(windows, root, CONFIG_FILE@)[n + 9] == '.');
    if names.len() == 0 {
        assert(path.len() == n + 9);
    } else {
        lemma_tail_first(sep, names);
        assert(path[n + 9] == sep);
    }
}

/// Names with a separator before each begin with it.
pub proof fn lemma_tail_first(sep: char, names: Seq<Seq<char>>)
    requires
        names.len() > 0,
    ensures
        tail(sep, names).len() > 0,
        tail(sep, names)[0] == sep,
    decreases names.len(),
{
    if names.len() > 1 {
        lemma_tail_first(sep, names.drop_last());
    } else {
        assert(tail(sep, names.drop_last()) =~= seq![]);
    }
}

/// Writing the configuration leaves a repository what it is.
proof fn lemma_fair_with_config(k: Kept, root: Seq<char>, text: Seq<char>)
    requires
        is_fair(k, root),
    ensures
        is_fair(
            Kept { files: k.files.insert(path_joined(k.windows, root, CONFIG_FILE@), text), ..k },
            root,
        ),
{
    let w = k.windows;
    let dir = path_joined(w, root, HOOKS_DIR@);
    let config = path_joined(w, root, CONFIG_FILE@);
    let k2 = Kept { files: k.files.insert(config, text), ..k };
    assert forall|names: Seq<Seq<char>>, i: int|
        all_names(w, names) && 0 < i < names.len() && k2.files.contains_key(
            #[trigger] descended(w, dir, names),
        ) implies k2.dirs.contains(#[trigger] descended(w, dir, names.take(i))) by {
        lemma_config_apart(w, root, names);
        assert(k.files.contains_key(descended(w, dir, names)));
    }
    assert forall|names: Seq<Seq<char>>|
        all_names(w, names) && k2.files.contains_key(
            #[trigger] descended(w, dir, names),
        ) implies plain(names) by {
        lemma_config_apart(w, root, names);
    }
}

/// A command that is added to the configuration is there when it is read, and no other
/// file is changed. The content as it then is is accepted: for as long as it stays so, the
/// decision that was recorded accepts it, and no other.
pub proof fn law_added_command_stays_accepted(
    k: Kept,
    log: Seq<Exchange>,
    hook: Seq<char>,
    cmd: Seq<char>,
    root: Seq<char>,
    hash: Seq<char>,
    b: int,
    to: int,
    k2: Kept,
    log2: Seq<Exchange>,
    at2: int,
    hash2: Seq<char>,
    to2: int,
)
    requires
        good_hash(k.hash),
        is_fair(k, root),
        with_command(
            entries_of(file_at(k, path_joined(k.windows, root, CONFIG_FILE@))),
            hook,
            cmd,
        ) matches Ok(doc) ==> prints_well(doc),
        play_need_root(log, 0) == Outcome::Done(root, 1int),
        yields_root(log, 4, root),
        play_consent_hash(k.windows, log, 4) == Outcome::Done(Some(hash), b),
        yields_root(log, b + 2, root),
        play_add(k.windows, log, 0, hook, cmd) == Outcome::Done((), to),
        honest(k, log, 0, to),
        0 <= at2,
        k2.windows == k.windows,
        k2.hash == k.hash,
        is_fair(k2, root),
        yields_root(log2, at2, root),
        play_consent_hash(k.windows, log2, at2) == Outcome::Done(Some(hash2), to2),
        honest(k2, log2, at2, to2),
    ensures
        with_command(
            entries_of(file_at(k, path_joined(k.windows, root, CONFIG_FILE@))),
            hook,
            cmd,
        ) == Ok::<_, Seq<char>>(
            entries_of(
                file_at(kept_at(k, log, 0, to), path_joined(k.windows, root, CONFIG_FILE@)),
            ),
        ),
        forall|path: Seq<char>|
            path != path_joined(k.windows, root, CONFIG_FILE@) ==> #[trigger] file_at(
                kept_at(k, log, 0, to),
                path,
            ) == file_at(k, path),
        values(kept_at(k, log, 0, to).config, "hooks.consent"@) == seq![verdict(true, hash)],
        decision(Some(verdict(true, hash)), Some(hash2)) == Decision::Accepted <==> same_content(
            kept_at(k, log, 0, to),
            k2,
            root,
            false,
        ),
{
    lemma_options_differ();
    let w = k.windows;
    let path = path_joined(w, root, CONFIG_FILE@);
    let w0 = texts(log[0].request.words@);
    assert(w0 == seq!["rev-parse"@, "--show-toplevel"@]);
    assert(w0[0] == "rev-parse"@);
    assert(idle(log[0]));
    assert(texts(log[1].request.words@) == seq![path]);
    assert(texts(log[1].request.words@)[0] == path);
    assert(idle(log[1]));
    assert(play_record_consent(w, log, 4, true) is Done);
    match play_record_consent(w, log, 4, true) {
        Outcome::Done(u, m) => {
            assert(u == ());
            assert(m == to);
        },
        _ => {},
    }
    let a = play_githooks_dir_files(w, log, 7, root)->Done_1;
    let c = play_githooks_dir_files(w, log, b + 3, root)->Done_1;
    let files = found_files(k, log, 7, root);
    let files2 = found_files(k, log, b + 3, root);
    lemma_consent_ends(w, log, 4, root, hash, b);
    lemma_consent_told(w, k, log, 4, root, files, a, hash, b);
    lemma_record_after(w, log, 4, b, to);
    lemma_parts(k, log, 0, 2, to);
    lemma_idles(k, log, 0, 2);
    assert(tells(k, log[1]));
    let new = with_command(entries_of(file_at(k, path)), hook, cmd)->Ok_0;
    let text = toml_printed(new)->Some_0;
    let w2 = texts(log[2].request.words@);
    assert(w2 == seq![path, text]);
    assert(w2[0] == path && w2[1] == text);
    let k1 = kept_after(k, log[2]);
    lemma_parts(k, log, 2, 4, to);
    assert(kept_at(k, log, 2, 4) == k1) by {
        reveal_with_fuel(kept_at, 3);
    }
    lemma_fair_with_config(k, root, text);
    assert(k1 == (Kept { files: k.files.insert(path, text), ..k }));
    lemma_parts(k1, log, 4, b, to);
    lemma_recorded(w, k1, log, 4, true, root, files, a, hash, b, root, files2, c, to);
    let k3 = kept_at(k1, log, 4, to);
    assert(file_at(k1, path) == Some(text));
    law_consent_hash_tells_content(k1, log, 4, hash, b, k2, log2, at2, hash2, to2, root);
    assert(same_content(k1, k2, root, false) <==> same_content(k3, k2, root, false)) by {
        assert forall|other: Seq<char>| file_at(k1, other) == #[trigger] file_at(k3, other) by {}
    }
    if hash2 == hash {
        law_decision_holds(true, hash);
    } else {
        law_other_content_is_undecided(true, hash, hash2);
    }
}

} // verus!
