//! What is made of what processes write, and what is handed to them.
use crate::content::{canonical_text, content_line, content_lines};
use crate::git::{
    paths_listed, play_git_capture, play_repo_root, play_staged_files, unescaped, unquoted,
};
use crate::spelling::law_lines;
use crate::text::{lines_of, maybe, texts, trimmed};
use crate::world::{
    asked_done, asked_flag, asked_ran, asked_text, captured, said, succeeded, text_of, Exchange,
    Finished, Op, Outcome, Reply, Stop,
};
use vstd::prelude::*;
use vstd::utf8::encode_utf8;

verus! {

// ---------------------------------------------------------------------------
// Replies.
// ---------------------------------------------------------------------------

/// Whether the exchange at `at` is the given request.
pub open spec fn is_request(log: Seq<Exchange>, at: int, op: Op, words: Seq<Seq<char>>) -> bool {
    0 <= at < log.len() && log[at].request.op == op && texts(log[at].request.words@) == words
}

/// A request is answered by the exchange that is it, with a reply of its kind, and by none
/// other: one exchange on.
pub proof fn law_replies(log: Seq<Exchange>, at: int, op: Op, words: Seq<Seq<char>>, to: int)
    requires
        0 <= at,
    ensures
        asked_done(log, at, op, words) == Outcome::Done((), to) <==> is_request(log, at, op, words)
            && log[at].reply is Done && to == at + 1,
        forall|b: bool|
            #[trigger] replied(asked_flag(log, at, op, words), b, to) <==> is_request(
                log,
                at,
                op,
                words,
            ) && log[at].reply == Reply::Flag(b) && to == at + 1,
        forall|t: Option<Seq<char>>|
            #[trigger] replied(asked_text(log, at, op, words), t, to) <==> is_request(
                log,
                at,
                op,
                words,
            ) && (log[at].reply matches Reply::Text(r) && t == maybe(r)) && to == at + 1,
        forall|f: Option<Finished>|
            #[trigger] replied(asked_ran(log, at, op, words), f, to) <==> is_request(
                log,
                at,
                op,
                words,
            ) && (match log[at].reply {
                Reply::Ran(Ok(g)) => f == Some(g),
                Reply::Ran(Err(_)) => f is None,
                _ => false,
            }) && to == at + 1,
        at >= log.len() ==> asked_done(log, at, op, words) == Outcome::<()>::Stop(
            Stop::Ask(op, words),
        ),
        at >= log.len() ==> asked_flag(log, at, op, words) == Outcome::<bool>::Stop(
            Stop::Ask(op, words),
        ),
        at >= log.len() ==> asked_text(log, at, op, words) == Outcome::<Option<Seq<char>>>::Stop(
            Stop::Ask(op, words),
        ),
        at >= log.len() ==> asked_ran(log, at, op, words) == Outcome::<Option<Finished>>::Stop(
            Stop::Ask(op, words),
        ),
        at < log.len() && !is_request(log, at, op, words) ==> asked_done(log, at, op, words)
            == Outcome::<()>::Stop(Stop::Astray),
{
    let o = asked_done(log, at, op, words);
    if o is Done {
        let u = o->Done_0;
        assert(u == ());
    }
}

/// Whether a part of a command came to a value.
pub open spec fn replied<T>(o: Outcome<T>, v: T, to: int) -> bool {
    o == Outcome::Done(v, to)
}

// ---------------------------------------------------------------------------
// Processes.
// ---------------------------------------------------------------------------

/// A process is heard where it ended with 0: what it wrote to its output, trimmed.
pub proof fn law_captured(f: Finished)
    ensures
        f.code == Some(0i32) ==> captured(Some(f)) == Some(trimmed(text_of(f.stdout@))),
        f.code != Some(0i32) ==> captured(Some(f)) is None,
        captured(None) is None,
        succeeded(f) <==> f.code == Some(0i32),
        said(f) == text_of(f.stdout@),
{
}

/// Asking `git` for something is one exchange, and gives what `git` wrote. The root of the
/// repository is what `git rev-parse --show-toplevel` writes.
pub proof fn law_git_is_heard(
    log: Seq<Exchange>,
    at: int,
    args: Seq<Seq<char>>,
    text: Option<Seq<char>>,
    to: int,
)
    requires
        0 <= at,
    ensures
        play_git_capture(log, at, args) == Outcome::Done(text, to) <==> at < log.len() && to == at
            + 1 && log[at].request.op == Op::GitCapture && texts(log[at].request.words@) == args
            && (match log[at].reply {
            Reply::Ran(Ok(f)) => text == captured(Some(f)),
            Reply::Ran(Err(_)) => text is None,
            _ => false,
        }),
        play_repo_root(log, at) == play_git_capture(
            log,
            at,
            seq!["rev-parse"@, "--show-toplevel"@],
        ),
{
}

// ---------------------------------------------------------------------------
// Staged files.
// ---------------------------------------------------------------------------

/// The staged files are those that `git diff --cached` lists in the repository, of those
/// that were added, copied, modified or renamed. Where it fails, there are none.
pub proof fn law_staged_files(
    log: Seq<Exchange>,
    at: int,
    root: Seq<char>,
    staged: Seq<Seq<char>>,
    to: int,
)
    requires
        0 <= at,
    ensures
        play_staged_files(log, at, root) == Outcome::Done(staged, to) <==> at < log.len() && to
            == at + 1 && log[at].request.op == Op::GitCaptureIn && texts(log[at].request.words@)
            == seq![root, "diff"@, "--cached"@, "--name-only"@, "--diff-filter=ACMR"@] && (
        match log[at].reply {
            Reply::Ran(Ok(f)) => if f.code == Some(0i32) {
                staged == paths_listed(text_of(f.stdout@))
            } else {
                staged.len() == 0
            },
            Reply::Ran(Err(_)) => staged.len() == 0,
            _ => false,
        }),
{
    let none = Seq::<Seq<char>>::empty();
    assert(staged.len() == 0 ==> staged =~= none);
}

/// Each line of the list names one file, but for empty ones, in the order of the lines.
pub proof fn law_paths_listed(line: Seq<char>, rest: Seq<char>)
    requires
        !line.contains('\n'),
        line.len() > 0 ==> line.last() != '\r',
    ensures
        paths_listed(Seq::<char>::empty()) == Seq::<Seq<char>>::empty(),
        paths_listed(line + seq!['\n'] + rest) == (if line.len() > 0 {
            seq![unquoted(line)]
        } else {
            seq![]
        }) + paths_listed(rest),
        line.len() > 0 ==> paths_listed(line) == seq![unquoted(line)],
{
    let keep = |l: Seq<char>| l.len() > 0;
    let name = |l: Seq<char>| unquoted(l);
    law_lines(line, rest);
    reveal(Seq::filter);
    let none = Seq::<Seq<char>>::empty();
    assert(none.filter(keep) =~= none);
    assert(none.map_values(name) =~= none);
    let one = seq![line];
    assert(one.drop_last() =~= none);
    assert(one.filter(keep) =~= if line.len() > 0 {
        one
    } else {
        none
    });
    lemma_filter_parts(one, lines_of(rest), keep);
    let a = one.filter(keep);
    let b = lines_of(rest).filter(keep);
    assert((a + b).map_values(name) =~= a.map_values(name) + b.map_values(name));
    assert(one.map_values(name) =~= seq![unquoted(line)]);
    assert(paths_listed(line + seq!['\n'] + rest) =~= (if line.len() > 0 {
        seq![unquoted(line)]
    } else {
        seq![]
    }) + paths_listed(rest));
}

/// Two lists are filtered one after the other.
pub proof fn lemma_filter_parts(
    a: Seq<Seq<char>>,
    b: Seq<Seq<char>>,
    keep: spec_fn(Seq<char>) -> bool,
)
    ensures
        (a + b).filter(keep) == a.filter(keep) + b.filter(keep),
    decreases b.len(),
{
    reveal(Seq::filter);
    if b.len() == 0 {
        assert(a + b =~= a);
        assert((a + b).filter(keep) =~= a.filter(keep) + b.filter(keep));
    } else {
        assert((a + b).drop_last() =~= a + b.drop_last());
        lemma_filter_parts(a, b.drop_last(), keep);
        assert((a + b).filter(keep) =~= a.filter(keep) + b.filter(keep));
    }
}

/// A line that is not between double quotes is a name as it stands; one that is, is the
/// name whose bytes stand between the quotes.
pub proof fn law_unquoted(line: Seq<char>, inner: Seq<char>)
    ensures
        line.len() < 2 || line[0] != '"' || line.last() != '"' ==> unquoted(line) == line,
        unquoted(seq!['"'] + inner + seq!['"']) == text_of(unescaped(inner)),
{
    let q = seq!['"'] + inner + seq!['"'];
    assert(q.subrange(1, q.len() - 1) =~= inner);
}

/// Between quotes, `\` and three octal digits stand for a byte, `\` and a letter for a
/// control character, `\"` and `\\` for a quote and a backslash, and any other character
/// for itself.
pub proof fn law_unescaped(c: char, rest: Seq<char>)
    ensures
        unescaped(Seq::<char>::empty()) == Seq::<u8>::empty(),
        c != '\\' ==> unescaped(seq![c] + rest) == encode_utf8(seq![c]) + unescaped(rest),
        unescaped(seq!['\\', 'n'] + rest) == seq![10u8] + unescaped(rest),
        unescaped(seq!['\\', 't'] + rest) == seq![9u8] + unescaped(rest),
        unescaped(seq!['\\', 'r'] + rest) == seq![13u8] + unescaped(rest),
        unescaped(seq!['\\', 'a'] + rest) == seq![7u8] + unescaped(rest),
        unescaped(seq!['\\', 'b'] + rest) == seq![8u8] + unescaped(rest),
        unescaped(seq!['\\', 'v'] + rest) == seq![11u8] + unescaped(rest),
        unescaped(seq!['\\', 'f'] + rest) == seq![12u8] + unescaped(rest),
        unescaped(seq!['\\', '"'] + rest) == seq![34u8] + unescaped(rest),
        unescaped(seq!['\\', '\\'] + rest) == seq![92u8] + unescaped(rest),
{
    assert((seq![c] + rest).skip(1) =~= rest);
    assert((seq!['\\', 'n'] + rest).skip(2) =~= rest);
    assert((seq!['\\', 't'] + rest).skip(2) =~= rest);
    assert((seq!['\\', 'r'] + rest).skip(2) =~= rest);
    assert((seq!['\\', 'a'] + rest).skip(2) =~= rest);
    assert((seq!['\\', 'b'] + rest).skip(2) =~= rest);
    assert((seq!['\\', 'v'] + rest).skip(2) =~= rest);
    assert((seq!['\\', 'f'] + rest).skip(2) =~= rest);
    assert((seq!['\\', '"'] + rest).skip(2) =~= rest);
    assert((seq!['\\', '\\'] + rest).skip(2) =~= rest);
}

// ---------------------------------------------------------------------------
// The canonical text.
// ---------------------------------------------------------------------------

/// The canonical text has one line for each file, in order: its name, a colon, and its
/// blob. The configuration comes first, if it has a blob.
pub proof fn law_canonical_lines(
    config: Seq<char>,
    entries: Seq<(Seq<char>, Seq<char>)>,
    path: Seq<char>,
    blob: Seq<char>,
)
    ensures
        canonical_text(None, seq![]) == Seq::<char>::empty(),
        canonical_text(Some(config), seq![]) == ".githooks.toml:"@ + config + seq!['\n'],
        canonical_text(Some(config), entries.push((path, blob))) == canonical_text(
            Some(config),
            entries,
        ) + path + seq![':'] + blob + seq!['\n'],
        canonical_text(None, entries.push((path, blob))) == canonical_text(None, entries) + path
            + seq![':'] + blob + seq!['\n'],
{
    reveal_strlit(".githooks.toml");
    reveal_strlit(":");
    reveal_strlit("\n");
    reveal_strlit(".githooks.toml:");
    let none = Seq::<char>::empty();
    assert(canonical_text(None, seq![]) =~= none);
    assert(canonical_text(Some(config), seq![]) =~= ".githooks.toml:"@ + config + seq!['\n']);
    let all = entries.push((path, blob));
    let lines = |list: Seq<(Seq<char>, Seq<char>)>|
        Seq::new(list.len(), |i: int| content_line(list[i].0, list[i].1));
    assert(lines(all).drop_last() =~= lines(entries));
    assert(content_lines(all) =~= content_lines(entries) + path + seq![':'] + blob + seq!['\n']);
    assert(canonical_text(Some(config), all) =~= canonical_text(Some(config), entries) + path
        + seq![':'] + blob + seq!['\n']);
    assert(canonical_text(None, all) =~= canonical_text(None, entries) + path + seq![':'] + blob
        + seq!['\n']);
}

} // verus!
