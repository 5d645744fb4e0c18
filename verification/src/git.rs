//! Running `git`, and what the program says on its way.
use crate::config::HOOKS_DIR;
use crate::paths::{is_absolute, join_path, path_absolute, path_joined};
use crate::text::{cat3, chars, join, joined, lines, lines_of, texts};
use crate::world::{
    asked_done, asked_ran, asked_text, came_to, capture, captured, decoded, goes_on, one, owned,
    said, succeeded, text_of, Exchange, Halt, Op, Outcome, Run, Stop,
};
use vstd::prelude::*;
use vstd::string::{StrSliceExecFns, StringSliceAdditionalSpecFns};
use vstd::utf8::{encode_utf8, leading_byte_width_1};

verus! {

// ---------------------------------------------------------------------------
// Saying something.
// ---------------------------------------------------------------------------

/// What writing to standard output comes to.
pub open spec fn play_say(log: Seq<Exchange>, at: int, text: Seq<char>) -> Outcome<()> {
    asked_done(log, at, Op::Print, seq![text])
}

/// What writing to standard error comes to.
pub open spec fn play_tell(log: Seq<Exchange>, at: int, text: Seq<char>) -> Outcome<()> {
    asked_done(log, at, Op::Report, seq![text])
}

/// Writes to standard output.
pub fn say(run: &mut Run, text: &str) -> (r: Result<(), Halt>)
    ensures
        goes_on(*final(run), *old(run)),
        came_to(r, *final(run), play_say(old(run).log@, old(run).at as int, text@)),
{
    run.ask_done(Op::Print, one(text))
}

/// Writes to standard error.
pub fn tell(run: &mut Run, text: &str) -> (r: Result<(), Halt>)
    ensures
        goes_on(*final(run), *old(run)),
        came_to(r, *final(run), play_tell(old(run).log@, old(run).at as int, text@)),
{
    run.ask_done(Op::Report, one(text))
}

/// How a command ends that gives up with a message.
pub open spec fn failing(log: Seq<Exchange>, at: int, text: Seq<char>, code: i32) -> Stop {
    match play_tell(log, at, text) {
        Outcome::Stop(s) => s,
        Outcome::Done(_, _) => Stop::Exit(code),
    }
}

/// Gives up with a message and an exit code.
pub fn fail(run: &mut Run, text: &str, code: i32) -> (r: Halt)
    ensures
        goes_on(*final(run), *old(run)),
        r@ == failing(old(run).log@, old(run).at as int, text@, code),
{
    match tell(run, text) {
        Err(h) => h,
        Ok(()) => Halt::Exit(code),
    }
}

// ---------------------------------------------------------------------------
// Running git.
// ---------------------------------------------------------------------------

/// What running `git` for its effect comes to: a failure ends the command.
pub open spec fn play_git(log: Seq<Exchange>, at: int, args: Seq<Seq<char>>) -> Outcome<()> {
    match asked_ran(log, at, Op::Git, args) {
        Outcome::Stop(s) => Outcome::Stop(s),
        Outcome::Done(None, _) => Outcome::Stop(Stop::Abort("run git"@)),
        Outcome::Done(Some(f), at) => if succeeded(f) {
            Outcome::Done((), at)
        } else {
            Outcome::Stop(
                failing(log, at, "git-hooks: `git "@ + joined(args, " "@) + "` failed\n"@, 1),
            )
        },
    }
}

/// Runs `git` for its effect.
pub fn git(run: &mut Run, args: Vec<String>) -> (r: Result<(), Halt>)
    ensures
        goes_on(*final(run), *old(run)),
        came_to(r, *final(run), play_git(old(run).log@, old(run).at as int, texts(args@))),
{
    let text = join(&args, " ");
    match run.ask_ran(Op::Git, args)? {
        None => Err(Halt::Abort("run git".to_string())),
        Some(f) => if f.success() {
            Ok(())
        } else {
            Err(fail(run, cat3("git-hooks: `git ", text.as_str(), "` failed\n").as_str(), 1))
        },
    }
}

/// What running `git` for what it writes comes to: nothing when it fails.
pub open spec fn play_git_capture(
    log: Seq<Exchange>,
    at: int,
    args: Seq<Seq<char>>,
) -> Outcome<Option<Seq<char>>> {
    match asked_ran(log, at, Op::GitCapture, args) {
        Outcome::Stop(s) => Outcome::Stop(s),
        Outcome::Done(f, at) => Outcome::Done(captured(f), at),
    }
}

/// Runs `git` for what it writes.
pub fn git_capture(run: &mut Run, args: Vec<String>) -> (r: Result<Option<String>, Halt>)
    ensures
        goes_on(*final(run), *old(run)),
        came_to(r, *final(run), play_git_capture(old(run).log@, old(run).at as int, texts(args@))),
{
    let f = run.ask_ran(Op::GitCapture, args)?;
    Ok(capture(f))
}

/// What hashing a text with `git` comes to.
pub open spec fn play_git_hash_stdin(
    log: Seq<Exchange>,
    at: int,
    data: Seq<char>,
) -> Outcome<Seq<char>> {
    match asked_ran(log, at, Op::GitFeed, seq![data, "hash-object"@, "--stdin"@]) {
        Outcome::Stop(s) => Outcome::Stop(s),
        Outcome::Done(None, _) => Outcome::Stop(Stop::Abort("spawn git hash-object"@)),
        Outcome::Done(Some(f), at) => if f.fed {
            Outcome::Done(crate::text::trimmed(said(f)), at)
        } else {
            Outcome::Stop(Stop::Abort("write to git hash-object"@))
        },
    }
}

/// The hash that `git hash-object --stdin` gives a text.
pub fn git_hash_stdin(run: &mut Run, data: &str) -> (r: Result<String, Halt>)
    ensures
        goes_on(*final(run), *old(run)),
        came_to(r, *final(run), play_git_hash_stdin(old(run).log@, old(run).at as int, data@)),
{
    let w = owned(vec![data, "hash-object", "--stdin"]);
    assert(texts(w@) =~= seq![data@, "hash-object"@, "--stdin"@]);
    match run.ask_ran(Op::GitFeed, w)? {
        None => Err(Halt::Abort("spawn git hash-object".to_string())),
        Some(f) => if f.fed {
            Ok(crate::text::trim(f.output().as_str()))
        } else {
            Err(Halt::Abort("write to git hash-object".to_string()))
        },
    }
}

/// What finding the repository comes to.
pub open spec fn play_repo_root(log: Seq<Exchange>, at: int) -> Outcome<Option<Seq<char>>> {
    play_git_capture(log, at, seq!["rev-parse"@, "--show-toplevel"@])
}

/// The root of the repository that the program runs in.
pub fn repo_root(run: &mut Run) -> (r: Result<Option<String>, Halt>)
    ensures
        goes_on(*final(run), *old(run)),
        came_to(r, *final(run), play_repo_root(old(run).log@, old(run).at as int)),
{
    let w = owned(vec!["rev-parse", "--show-toplevel"]);
    assert(texts(w@) =~= seq!["rev-parse"@, "--show-toplevel"@]);
    git_capture(run, w)
}

/// What finding the repository comes to for a command that needs one.
pub open spec fn play_need_root(log: Seq<Exchange>, at: int) -> Outcome<Seq<char>> {
    match play_repo_root(log, at) {
        Outcome::Stop(s) => Outcome::Stop(s),
        Outcome::Done(Some(root), at) => Outcome::Done(root, at),
        Outcome::Done(None, at) => Outcome::Stop(
            failing(log, at, "not inside a git repository\n"@, 1),
        ),
    }
}

/// The root of the repository, without which the command ends.
pub fn need_root(run: &mut Run) -> (r: Result<String, Halt>)
    ensures
        goes_on(*final(run), *old(run)),
        came_to(r, *final(run), play_need_root(old(run).log@, old(run).at as int)),
{
    match repo_root(run)? {
        Some(root) => Ok(root),
        None => Err(fail(run, "not inside a git repository\n", 1)),
    }
}

/// What finding the hooks directory of the repository comes to.
pub open spec fn play_hooks_path(log: Seq<Exchange>, at: int, windows: bool) -> Outcome<
    Option<Seq<char>>,
> {
    match play_git_capture(log, at, seq!["rev-parse"@, "--git-path"@, "hooks"@]) {
        Outcome::Stop(s) => Outcome::Stop(s),
        Outcome::Done(None, at) => Outcome::Done(None, at),
        Outcome::Done(Some(p), at) => if path_absolute(windows, p) {
            Outcome::Done(Some(p), at)
        } else {
            match asked_text(log, at, Op::CurrentDir, seq![]) {
                Outcome::Stop(s) => Outcome::Stop(s),
                Outcome::Done(None, at) => Outcome::Done(None, at),
                Outcome::Done(Some(dir), at) => Outcome::Done(
                    Some(path_joined(windows, dir, p)),
                    at,
                ),
            }
        },
    }
}

/// This repository's hooks directory, which honours `core.hooksPath` and
/// worktrees. The path that `git` prints is relative to the current directory,
/// so it is anchored there.
pub fn hooks_path(run: &mut Run) -> (r: Result<Option<String>, Halt>)
    ensures
        goes_on(*final(run), *old(run)),
        came_to(
            r,
            *final(run),
            play_hooks_path(old(run).log@, old(run).at as int, old(run).windows),
        ),
{
    let w = owned(vec!["rev-parse", "--git-path", "hooks"]);
    assert(texts(w@) =~= seq!["rev-parse"@, "--git-path"@, "hooks"@]);
    let p = match git_capture(run, w)? {
        Some(p) => p,
        None => return Ok(None),
    };
    if is_absolute(run.windows, p.as_str()) {
        return Ok(Some(p));
    }
    let none: Vec<String> = Vec::new();
    assert(texts(none@) =~= seq![]);
    match run.ask_text(Op::CurrentDir, none)? {
        Some(dir) => Ok(Some(join_path(run.windows, dir.as_str(), p.as_str()))),
        None => Ok(None),
    }
}

// ---------------------------------------------------------------------------
// Staged files.
// ---------------------------------------------------------------------------

/// The byte that a letter behind `\` stands for in a name that `git` quotes.
pub open spec fn escape_meaning(c: char) -> Option<u8> {
    match c {
        'a' => Some(7u8),
        'b' => Some(8u8),
        't' => Some(9u8),
        'n' => Some(10u8),
        'v' => Some(11u8),
        'f' => Some(12u8),
        'r' => Some(13u8),
        '"' => Some(34u8),
        '\\' => Some(92u8),
        _ => None,
    }
}

/// Whether `s` begins with a byte in octal behind `\`.
pub open spec fn octal_first(s: Seq<char>) -> bool {
    s.len() > 3 && s[0] == '\\' && '0' <= s[1] <= '3' && '0' <= s[2] <= '7' && '0' <= s[3] <= '7'
}

/// The byte that three octal digits stand for.
pub open spec fn octal_value(a: char, b: char, c: char) -> u8 {
    ((a as int - '0' as int) * 64 + (b as int - '0' as int) * 8 + (c as int - '0' as int)) as u8
}

/// The bytes of a name that `git` quotes, given what stands between the quotes:
/// what is escaped stands for one byte, everything else for itself.
pub open spec fn unescaped(s: Seq<char>) -> Seq<u8>
    decreases s.len(),
{
    if s.len() == 0 {
        seq![]
    } else if octal_first(s) {
        seq![octal_value(s[1], s[2], s[3])] + unescaped(s.skip(4))
    } else if s[0] == '\\' && s.len() > 1 && escape_meaning(s[1]) is Some {
        seq![escape_meaning(s[1])->0] + unescaped(s.skip(2))
    } else {
        encode_utf8(seq![s[0]]) + unescaped(s.skip(1))
    }
}

/// The name that a line of `git` stands for. A name with unusual characters in it
/// is put between double quotes, which no other line begins and ends with.
pub open spec fn unquoted(line: Seq<char>) -> Seq<char> {
    if line.len() > 1 && line[0] == '"' && line.last() == '"' {
        text_of(unescaped(line.subrange(1, line.len() - 1)))
    } else {
        line
    }
}

/// The byte that a letter behind `\` stands for in a name that `git` quotes.
fn read_escape(c: char) -> (r: Option<u8>)
    ensures
        r == escape_meaning(c),
{
    match c {
        'a' => Some(7),
        'b' => Some(8),
        't' => Some(9),
        'n' => Some(10),
        'v' => Some(11),
        'f' => Some(12),
        'r' => Some(13),
        '"' => Some(34),
        '\\' => Some(92),
        _ => None,
    }
}

/// The value of an octal digit.
fn digit(c: char) -> (r: u8)
    requires
        '0' <= c <= '7',
    ensures
        r == c as int - '0' as int,
{
    match c {
        '0' => 0,
        '1' => 1,
        '2' => 2,
        '3' => 3,
        '4' => 4,
        '5' => 5,
        '6' => 6,
        _ => 7,
    }
}

/// Appends the encoding of a character.
fn push_encoded(out: &mut Vec<u8>, c: char)
    ensures
        final(out)@ == old(out)@ + encode_utf8(seq![c]),
{
    let mut s = String::new();
    s.push(c);
    assert(s@ =~= seq![c]);
    let mut bytes = s.as_str().as_bytes_vec();
    out.append(&mut bytes);
}

/// The bytes of a name that `git` quotes, given what stands between the quotes.
fn unescape(v: &Vec<char>, lo: usize, hi: usize) -> (r: Vec<u8>)
    requires
        lo <= hi <= v@.len(),
    ensures
        r@ == unescaped(v@.subrange(lo as int, hi as int)),
{
    let mut out: Vec<u8> = Vec::new();
    let mut i: usize = lo;
    while i < hi
        invariant
            lo <= i <= hi <= v@.len(),
            unescaped(v@.subrange(lo as int, hi as int)) == out@ + unescaped(
                v@.subrange(i as int, hi as int),
            ),
        decreases hi - i,
    {
        let ghost rest = v@.subrange(i as int, hi as int);
        let ghost seen = out@;
        if hi - i > 3 && v[i] == '\\' && '0' <= v[i + 1] && v[i + 1] <= '3' && '0' <= v[i + 2]
            && v[i + 2] <= '7' && '0' <= v[i + 3] && v[i + 3] <= '7' {
            out.push(digit(v[i + 1]) * 64 + digit(v[i + 2]) * 8 + digit(v[i + 3]));
            assert(rest.skip(4) =~= v@.subrange(i + 4, hi as int));
            assert(out@ =~= seen + seq![octal_value(rest[1], rest[2], rest[3])]);
            i = i + 4;
        } else {
            let escaped = if v[i] == '\\' && hi - i > 1 {
                read_escape(v[i + 1])
            } else {
                None
            };
            match escaped {
                Some(b) => {
                    out.push(b);
                    assert(rest.skip(2) =~= v@.subrange(i + 2, hi as int));
                    assert(out@ =~= seen + seq![b]);
                    i = i + 2;
                },
                None => {
                    push_encoded(&mut out, v[i]);
                    assert(rest.skip(1) =~= v@.subrange(i + 1, hi as int));
                    i = i + 1;
                },
            }
        }
        assert(seen + unescaped(rest) =~= out@ + unescaped(v@.subrange(i as int, hi as int)));
    }
    assert(out@ + unescaped(v@.subrange(i as int, hi as int)) =~= out@);
    out
}

/// The name that a line of `git` stands for.
pub fn unquote(line: &str) -> (r: String)
    ensures
        r@ == unquoted(line@),
{
    let v = chars(line);
    if v.len() > 1 && v[0] == '"' && v[v.len() - 1] == '"' {
        decoded(&unescape(&v, 1, v.len() - 1))
    } else {
        line.to_owned()
    }
}

/// The staged paths in what `git diff` wrote: the names that its lines stand for,
/// empty lines aside.
pub open spec fn paths_listed(text: Seq<char>) -> Seq<Seq<char>> {
    lines_of(text).filter(|l: Seq<char>| l.len() > 0).map_values(|l: Seq<char>| unquoted(l))
}

/// What asking for the staged files comes to.
pub open spec fn play_staged_files(
    log: Seq<Exchange>,
    at: int,
    root: Seq<char>,
) -> Outcome<Seq<Seq<char>>> {
    match asked_ran(
        log,
        at,
        Op::GitCaptureIn,
        seq![root, "diff"@, "--cached"@, "--name-only"@, "--diff-filter=ACMR"@],
    ) {
        Outcome::Stop(s) => Outcome::Stop(s),
        Outcome::Done(Some(f), at) => if succeeded(f) {
            Outcome::Done(paths_listed(said(f)), at)
        } else {
            Outcome::Done(seq![], at)
        },
        Outcome::Done(None, at) => Outcome::Done(seq![], at),
    }
}

/// The staged paths in what `git diff` wrote.
pub fn parse_staged(text: &str) -> (r: Vec<String>)
    ensures
        texts(r@) == paths_listed(text@),
{
    let list = lines(text);
    let ghost all = texts(list@);
    let ghost keep = |l: Seq<char>| l.len() > 0;
    let ghost name = |l: Seq<char>| unquoted(l);
    let mut out: Vec<String> = Vec::new();
    let mut i: usize = 0;
    assert(texts(out@) =~= all.take(0).filter(keep).map_values(name)) by {
        reveal(Seq::filter);
    }
    while i < list.len()
        invariant
            i <= list@.len(),
            all == texts(list@),
            keep == (|l: Seq<char>| l.len() > 0),
            name == (|l: Seq<char>| unquoted(l)),
            texts(out@) == all.take(i as int).filter(keep).map_values(name),
        decreases list@.len() - i,
    {
        let ghost seen = out@;
        let ghost kept = all.take(i as int).filter(keep);
        assert(all.take(i + 1).drop_last() =~= all.take(i as int));
        if !list[i].as_str().is_empty() {
            let path = unquote(list[i].as_str());
            assert(kept.push(list@[i as int]@).map_values(name) =~= kept.map_values(name).push(
                path@,
            ));
            out.push(path);
            assert(texts(out@) =~= texts(seen).push(path@));
        }
        assert(texts(out@) =~= all.take(i + 1).filter(keep).map_values(name)) by {
            reveal(Seq::filter);
        }
        i = i + 1;
    }
    assert(all.take(i as int) =~= all);
    out
}

/// Staged paths, relative to the repository: added, copied, modified or renamed.
/// There are none for hooks that fire with nothing staged.
pub fn staged_files(run: &mut Run, root: &str) -> (r: Result<Vec<String>, Halt>)
    ensures
        goes_on(*final(run), *old(run)),
        came_to(r, *final(run), play_staged_files(old(run).log@, old(run).at as int, root@)),
{
    let w = owned(vec![root, "diff", "--cached", "--name-only", "--diff-filter=ACMR"]);
    assert(texts(w@) =~= seq![
        root@,
        "diff"@,
        "--cached"@,
        "--name-only"@,
        "--diff-filter=ACMR"@,
    ]);
    match run.ask_ran(Op::GitCaptureIn, w)? {
        Some(f) if f.success() => Ok(parse_staged(f.output().as_str())),
        _ => {
            let none: Vec<String> = Vec::new();
            assert(texts(none@) =~= seq![]);
            Ok(none)
        },
    }
}

// ---------------------------------------------------------------------------
// The user's home.
// ---------------------------------------------------------------------------

/// What finding the home directory comes to.
pub open spec fn play_home(log: Seq<Exchange>, at: int) -> Outcome<Seq<char>> {
    match asked_text(log, at, Op::EnvVar, seq!["HOME"@]) {
        Outcome::Stop(s) => Outcome::Stop(s),
        Outcome::Done(Some(h), at) => Outcome::Done(h, at),
        Outcome::Done(None, at) => match asked_text(log, at, Op::EnvVar, seq!["USERPROFILE"@]) {
            Outcome::Stop(s) => Outcome::Stop(s),
            Outcome::Done(Some(h), at) => Outcome::Done(h, at),
            Outcome::Done(None, _) => Outcome::Stop(Stop::Abort("HOME/USERPROFILE not set"@)),
        },
    }
}

/// The home directory: `HOME`, or `USERPROFILE` where that is not set.
pub fn home(run: &mut Run) -> (r: Result<String, Halt>)
    ensures
        goes_on(*final(run), *old(run)),
        came_to(r, *final(run), play_home(old(run).log@, old(run).at as int)),
{
    if let Some(h) = run.ask_text(Op::EnvVar, one("HOME"))? {
        return Ok(h);
    }
    match run.ask_text(Op::EnvVar, one("USERPROFILE"))? {
        Some(h) => Ok(h),
        None => Err(Halt::Abort("HOME/USERPROFILE not set".to_string())),
    }
}

/// What finding a path below the home directory comes to.
pub open spec fn play_home_path(
    windows: bool,
    log: Seq<Exchange>,
    at: int,
    p: Seq<char>,
) -> Outcome<Seq<char>> {
    match play_home(log, at) {
        Outcome::Stop(s) => Outcome::Stop(s),
        Outcome::Done(h, at) => Outcome::Done(path_joined(windows, h, p), at),
    }
}

/// The directory that `git` copies into every new repository.
pub fn template_dir(run: &mut Run) -> (r: Result<String, Halt>)
    ensures
        goes_on(*final(run), *old(run)),
        came_to(
            r,
            *final(run),
            play_home_path(
                old(run).windows,
                old(run).log@,
                old(run).at as int,
                ".config/git-hooks/template"@,
            ),
        ),
{
    let h = home(run)?;
    Ok(join_path(run.windows, h.as_str(), ".config/git-hooks/template"))
}

/// The file of the org-wide policy.
pub fn policy_path(run: &mut Run) -> (r: Result<String, Halt>)
    ensures
        goes_on(*final(run), *old(run)),
        came_to(
            r,
            *final(run),
            play_home_path(
                old(run).windows,
                old(run).log@,
                old(run).at as int,
                ".config/git-hooks/policy.toml"@,
            ),
        ),
{
    let h = home(run)?;
    Ok(join_path(run.windows, h.as_str(), ".config/git-hooks/policy.toml"))
}

/// Where the signature of the repository at `root` lives.
pub open spec fn trust_path(windows: bool, root: Seq<char>) -> Seq<char> {
    path_joined(windows, path_joined(windows, root, HOOKS_DIR@), "trust"@)
}

/// The directory of the signature and of those who may sign.
pub fn trust_dir(windows: bool, root: &str) -> (r: String)
    ensures
        r@ == trust_path(windows, root@),
{
    join_path(windows, join_path(windows, root, HOOKS_DIR).as_str(), "trust")
}

// ---------------------------------------------------------------------------
// Quoting is undone.
// ---------------------------------------------------------------------------

/// An octal digit.
pub open spec fn digit_shown(n: int) -> char {
    seq!['0', '1', '2', '3', '4', '5', '6', '7'][n]
}

/// How `git` writes a byte of a name between quotes.
pub open spec fn escaped(b: u8) -> Seq<char> {
    match b {
        7u8 => seq!['\\', 'a'],
        8u8 => seq!['\\', 'b'],
        9u8 => seq!['\\', 't'],
        10u8 => seq!['\\', 'n'],
        11u8 => seq!['\\', 'v'],
        12u8 => seq!['\\', 'f'],
        13u8 => seq!['\\', 'r'],
        34u8 => seq!['\\', '"'],
        92u8 => seq!['\\', '\\'],
        _ => if 32 <= b < 127 {
            seq![b as char]
        } else {
            seq![
                '\\',
                digit_shown(b as int / 64),
                digit_shown(b as int / 8 % 8),
                digit_shown(b as int % 8),
            ]
        },
    }
}

/// How `git` writes a name between quotes.
pub open spec fn all_escaped(bytes: Seq<u8>) -> Seq<char>
    decreases bytes.len(),
{
    if bytes.len() == 0 {
        seq![]
    } else {
        escaped(bytes[0]) + all_escaped(bytes.drop_first())
    }
}

/// Three octal digits stand for the byte that they were made of.
proof fn lemma_octal(b: u8)
    ensures
        octal_value(
            digit_shown(b as int / 64),
            digit_shown(b as int / 8 % 8),
            digit_shown(b as int % 8),
        ) == b,
        '0' <= digit_shown(b as int / 64) <= '3',
        '0' <= digit_shown(b as int / 8 % 8) <= '7',
        '0' <= digit_shown(b as int % 8) <= '7',
{
    let n = b as int;
    assert(0 <= n / 64 <= 3);
    assert(0 <= n / 8 % 8 <= 7);
    assert(0 <= n % 8 <= 7);
    assert(digit_shown(n / 64) as int == '0' as int + n / 64);
    assert(digit_shown(n / 8 % 8) as int == '0' as int + n / 8 % 8);
    assert(digit_shown(n % 8) as int == '0' as int + n % 8);
    assert((n / 64) * 64 + (n / 8 % 8) * 8 + n % 8 == n);
}

/// A plain character stands for itself.
proof fn lemma_ascii(b: u8)
    requires
        b < 128,
    ensures
        encode_utf8(seq![b as char]) == seq![b],
{
    let c = b as char;
    let s = seq![c];
    assert(c as u32 == b as u32);
    assert(encode_utf8(s.drop_first()) =~= seq![]);
    let u = b as u32;
    assert(leading_byte_width_1(u) == b) by {
        assert(u < 128 ==> (u & 0x7f) as u8 == u as u8) by (bit_vector);
        assert(u as u8 == b);
    }
    assert(encode_utf8(s) =~= seq![b]);
}

/// What `git` escapes is read back as it was.
proof fn lemma_unescaped(bytes: Seq<u8>)
    ensures
        unescaped(all_escaped(bytes)) == bytes,
    decreases bytes.len(),
{
    if bytes.len() == 0 {
        assert(unescaped(all_escaped(bytes)) =~= bytes);
    } else {
        let b = bytes[0];
        let e = escaped(b);
        let rest = all_escaped(bytes.drop_first());
        let s = all_escaped(bytes);
        lemma_unescaped(bytes.drop_first());
        assert(seq![b] + bytes.drop_first() =~= bytes);
        assert(s[0] == e[0]);
        if e.len() == 1 {
            lemma_ascii(b);
            assert(s.skip(1) =~= rest);
        } else if e.len() == 2 {
            assert(s[1] == e[1]);
            assert(s.skip(2) =~= rest);
        } else {
            lemma_octal(b);
            assert(s[1] == e[1] && s[2] == e[2] && s[3] == e[3]);
            assert(s.skip(4) =~= rest);
        }
    }
}

/// A name that `git` puts between quotes, with what is unusual in it escaped, is
/// taken for that name.
pub proof fn law_quoting_undone(bytes: Seq<u8>)
    ensures
        unquoted(seq!['"'] + all_escaped(bytes) + seq!['"']) == text_of(bytes),
{
    let line = seq!['"'] + all_escaped(bytes) + seq!['"'];
    lemma_unescaped(bytes);
    assert(line.subrange(1, line.len() - 1) =~= all_escaped(bytes));
}

} // verus!
