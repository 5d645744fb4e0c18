//! What the user is told on first contact, and of files that are not covered.
use crate::config::{config_shown, document_refs, CONFIG_FILE, HOOKS_DIR};
use crate::content::play_githooks_dir_files;
use crate::document::toml_parsed;
use crate::keeping::{file_at, honest, idles, tells, Kept};
use crate::order::{distinct, increasing, law_distinct};
use crate::paths::{names_inside, path_joined, path_rel};
use crate::prompt::{
    names_shown, play_first_prompt_body, play_refs, play_runtime_ref_warning, rels, uncovered,
};
use crate::text::{concat, joined};
use crate::world::{asked_flag, asked_text, Exchange, Op, Outcome};
use vstd::prelude::*;

verus! {

// ---------------------------------------------------------------------------
// First contact.
// ---------------------------------------------------------------------------

/// Names are shown one after the other, each on a line of its own behind two spaces.
pub proof fn law_names_shown(names: Seq<Seq<char>>, more: Seq<Seq<char>>, name: Seq<char>)
    ensures
        names_shown(seq![]) == Seq::<char>::empty(),
        names_shown(seq![name]) == "  "@ + name + "\n"@,
        names_shown(names + more) == names_shown(names) + names_shown(more),
    decreases more.len(),
{
    let each = |list: Seq<Seq<char>>| Seq::new(list.len(), |i: int| "  "@ + list[i] + "\n"@);
    assert(each(seq![name]) =~= seq!["  "@ + name + "\n"@]);
    assert(each(seq![name]).drop_last() =~= seq![]);
    reveal_with_fuel(concat, 2);
    assert(concat(each(seq![name])) =~= "  "@ + name + "\n"@);
    if more.len() == 0 {
        assert(names + more =~= names);
    } else {
        law_names_shown(names, more.drop_last(), name);
        assert(each(names + more).drop_last() =~= each(names + more.drop_last()));
        assert(each(more).drop_last() =~= each(more.drop_last()));
        assert(concat(each(names + more)) =~= concat(each(names)) + concat(each(more)));
    }
}

/// The first prompt shows the whole configuration, and, where there are any, the names of
/// all files of the hooks.
pub proof fn law_first_contact(
    windows: bool,
    log: Seq<Exchange>,
    at: int,
    root: Seq<char>,
    raw: Seq<char>,
    body: Seq<char>,
    to: int,
)
    requires
        play_first_prompt_body(windows, log, at, root, raw) == Outcome::Done(body, to),
    ensures
        play_githooks_dir_files(windows, log, at, root) matches Outcome::Done(files, end) && {
            let names = Seq::new(files.len(), |i: int| path_rel(windows, root, files[i]));
            let shown = config_shown(toml_parsed(raw), raw);
            let heading =
                "this repository wants to run the following hooks (.githooks.toml):\n\n"@;
            &&& end == to
            &&& files.len() == 0 ==> body == heading + shown
            &&& files.len() > 0 ==> body == heading + shown
                + "\ncovered scripts under .githooks/:\n"@ + names_shown(names)
        },
{
    let files = play_githooks_dir_files(windows, log, at, root)->Done_0;
    let shown = config_shown(toml_parsed(raw), raw);
    let names = Seq::new(files.len(), |i: int| path_rel(windows, root, files[i]));
    assert(rels(windows, root, files) =~= names);
    reveal_strlit("this repository wants to run the following hooks (");
    reveal_strlit(".githooks.toml");
    reveal_strlit("):\n\n");
    reveal_strlit("this repository wants to run the following hooks (.githooks.toml):\n\n");
    reveal_strlit("\ncovered scripts under ");
    reveal_strlit(".githooks");
    reveal_strlit("/:\n");
    reveal_strlit("\ncovered scripts under .githooks/:\n");
    let heading = "this repository wants to run the following hooks (.githooks.toml):\n\n"@;
    assert("this repository wants to run the following hooks ("@ + CONFIG_FILE@ + "):\n\n"@
        =~= heading);
    assert("\ncovered scripts under "@ + HOOKS_DIR@ + "/:\n"@
        =~= "\ncovered scripts under .githooks/:\n"@);
    if files.len() == 0 {
        assert(body =~= heading + shown);
    } else {
        assert(body =~= heading + shown + "\ncovered scripts under .githooks/:\n"@ + names_shown(
            names,
        ));
    }
}

// ---------------------------------------------------------------------------
// What is not covered.
// ---------------------------------------------------------------------------

/// Whether a path that a command may refer to, seen from a repository, is a file in it that
/// consent does not cover: neither the configuration, nor below `.githooks`.
pub open spec fn is_left_out(k: Kept, root: Seq<char>, path: Seq<char>) -> bool {
    let place = path_joined(k.windows, root, path);
    &&& k.files.contains_key(place)
    &&& names_inside(k.windows, root, place) matches Some(names) && {
        &&& names != seq![".githooks.toml"@]
        &&& names.len() == 1 || names[0] != ".githooks"@
    }
}

/// What is found when candidates are looked at from the `i`-th on.
proof fn lemma_refs_told(
    k: Kept,
    log: Seq<Exchange>,
    at: int,
    root: Seq<char>,
    list: Seq<Seq<char>>,
    i: int,
    out: Seq<Seq<char>>,
    refs: Seq<Seq<char>>,
    to: int,
)
    requires
        0 <= at <= log.len(),
        0 <= i <= list.len(),
        play_refs(k.windows, log, at, root, list, i, out) == Outcome::Done(refs, to),
    ensures
        idles(log, at, to),
        honest(k, log, at, to) ==> forall|p: Seq<char>| #[trigger]
            refs.contains(p) <==> out.contains(p) || is_left_out(k, root, p) && list.skip(
                i,
            ).contains(p),
    decreases list.len() - i,
{
    if i < list.len() {
        let p = list[i];
        let path = path_joined(k.windows, root, p);
        let rest = list.skip(i);
        assert(rest[0] == p);
        assert(rest.drop_first() =~= list.skip(i + 1));
        assert forall|q: Seq<char>| rest.contains(q) <==> q == p || #[trigger] list.skip(
            i + 1,
        ).contains(q) by {
            if rest.contains(q) {
                let j = choose|j: int| 0 <= j < rest.len() && rest[j] == q;
                if j > 0 {
                    assert(rest.drop_first()[j - 1] == q);
                }
            }
            if rest.drop_first().contains(q) {
                let j = choose|j: int|
                    0 <= j < rest.drop_first().len() && rest.drop_first()[j] == q;
                assert(rest[j + 1] == q);
            }
        }
        if !uncovered(k.windows, root, path) {
            lemma_refs_told(k, log, at, root, list, i + 1, out, refs, to);
            assert(!is_left_out(k, root, p));
        } else {
            let there = asked_flag(log, at, Op::IsFile, seq![path])->Done_0;
            let more = out.push(p);
            let next = if there {
                more
            } else {
                out
            };
            lemma_refs_told(k, log, at + 1, root, list, i + 1, next, refs, to);
            if honest(k, log, at, to) {
                assert(tells(k, log[at]));
                assert(there == k.files.contains_key(path));
                assert(is_left_out(k, root, p) == there);
                assert forall|q: Seq<char>| #[trigger] more.contains(q) <==> out.contains(q) || q
                    == p by {
                    if out.contains(q) {
                        let j = choose|j: int| 0 <= j < out.len() && out[j] == q;
                        assert(more[j] == q);
                    }
                    if q == p {
                        assert(more[out.len() as int] == q);
                    }
                }
            }
        }
    } else {
        assert(list.skip(i) =~= seq![]);
    }
}

/// What the warning is about: the files that commands of the configuration may refer to and
/// that are left out.
pub open spec fn warned_of(k: Kept, root: Seq<char>, path: Seq<char>) -> bool {
    &&& file_at(k, path_joined(k.windows, root, ".githooks.toml"@)) matches Some(raw)
        && toml_parsed(raw) matches Ok(doc) && document_refs(doc).contains(path)
    &&& is_left_out(k, root, path)
}

/// The warning names each file that commands may refer to and that consent does not cover,
/// once, in order, and no other; where there is none, there is no warning.
pub proof fn law_files_left_out_are_named(
    k: Kept,
    log: Seq<Exchange>,
    at: int,
    root: Seq<char>,
    warning: Seq<char>,
    to: int,
)
    requires
        0 <= at <= log.len(),
        play_runtime_ref_warning(k.windows, log, at, root) == Outcome::Done(warning, to),
        honest(k, log, at, to),
    ensures
        exists|list: Seq<Seq<char>>| #[trigger]
            increasing(list) && (forall|p: Seq<char>| #[trigger]
                list.contains(p) <==> warned_of(k, root, p)) && (list.len() == 0 ==> warning
                == Seq::<char>::empty()) && (list.len() > 0 ==> warning
                == "note: these commands reference repo files whose content is NOT covered by this consent:\n  "@
                + joined(list, "\n  "@) + "\n"@),
{
    let none = Seq::<Seq<char>>::empty();
    assert(increasing(none));
    reveal_strlit(".githooks.toml");
    reveal_strlit(".githooks");
    let path = path_joined(k.windows, root, CONFIG_FILE@);
    let read = asked_text(log, at, Op::ReadText, seq![path])->Done_0;
    if let Some(raw) = read {
        if let Ok(doc) = toml_parsed(raw) {
            let all = document_refs(doc);
            let refs = play_refs(k.windows, log, at + 1, root, all, 0, none)->Done_0;
            lemma_refs_told(k, log, at + 1, root, all, 0, none, refs, to);
            assert(all.skip(0) =~= all);
            law_distinct(refs);
            let list = distinct(refs);
            assert(tells(k, log[at]));
            assert(increasing(list));
            if refs.len() > 0 {
                assert(refs.contains(refs[0]));
                assert(list.contains(refs[0]));
            } else if list.len() > 0 {
                assert(list.contains(list[0]));
            }
        } else {
            assert(tells(k, log[at]));
        }
    } else {
        assert(tells(k, log[at]));
    }
}

} // verus!
