//! The commands about signatures: signing the hooks, and trusting keys.
use crate::commands::{usage, usage_stop};
use crate::config::{CONFIG_FILE, HOOKS_DIR};
use crate::content::{canonical_content, or_empty, play_canonical_content};
use crate::document::{
    entries_ordered, prints_well, simple_document, table_nodes, toml_printed, write_document,
    Document, Entries,
};
use crate::git::{
    fail, failing, git_capture, home, need_root, play_git, play_git_capture, play_home,
    play_home_path, play_need_root, play_repo_root, play_say, policy_path, repo_root, say,
    trust_dir, trust_path,
};
use crate::paths::{join_path, path_joined};
use crate::policy::{law_policy_stays_simple, trust_key, untrust_key, with_key, without_key};
use crate::signers::{fingerprint_field, second_word};
use crate::text::{
    cat3, chars, is_space, joined, law_lines_read_back, lemma_lines_add, lemma_lines_ended,
    lemma_one_line, lines, lines_of, maybe, same, texts, trim, trimmed,
};
use crate::trust::{
    add_key, add_local_trusted_key, key_addition, local_trusted_keys, play_add_local_trusted_key,
    play_local_trusted_keys, play_policy, policy, sig_path, signers_path, SIG_NAMESPACE,
};
use crate::world::{
    asked_done, asked_flag, asked_ran, asked_run, asked_text, came_to, capture, captured, goes_on,
    one, owned, said, succeeded, text_of, two, Exchange, Halt, Op, Outcome, Run, Stop,
};
use vstd::prelude::*;

verus! {

// ---------------------------------------------------------------------------
// Running ssh-keygen.
// ---------------------------------------------------------------------------

/// How `ssh-keygen` is asked to sign a content.
pub open spec fn sign_request(key: Seq<char>, content: Seq<char>) -> Seq<Seq<char>> {
    seq![content, "-Y"@, "sign"@, "-f"@, key, "-n"@, SIG_NAMESPACE@]
}

/// What signing a content comes to: the armored signature.
pub open spec fn play_ssh_sign(
    log: Seq<Exchange>,
    at: int,
    key: Seq<char>,
    content: Seq<char>,
) -> Outcome<Seq<char>> {
    match asked_run(log, at, Op::SshFeed, sign_request(key, content)) {
        Outcome::Stop(s) => Outcome::Stop(s),
        Outcome::Done(Err(e), at) => Outcome::Stop(
            failing(log, at, "could not run ssh-keygen: "@ + e + "\n"@, 1),
        ),
        Outcome::Done(Ok(f), at) => if !f.fed {
            Outcome::Stop(Stop::Abort("write to ssh-keygen"@))
        } else if !succeeded(f) {
            Outcome::Stop(
                failing(
                    log,
                    at,
                    "ssh-keygen sign failed: "@ + trimmed(text_of(f.stderr@)) + "\n"@,
                    1,
                ),
            )
        } else {
            Outcome::Done(said(f), at)
        },
    }
}

/// `ssh-keygen -Y sign` with the namespace pinned, the content being its input.
pub fn ssh_sign(run: &mut Run, key: &str, content: &str) -> (r: Result<String, Halt>)
    ensures
        goes_on(*final(run), *old(run)),
        came_to(r, *final(run), play_ssh_sign(old(run).log@, old(run).at as int, key@, content@)),
{
    let w = owned(vec![content, "-Y", "sign", "-f", key, "-n", SIG_NAMESPACE]);
    assert(texts(w@) =~= sign_request(key@, content@));
    match run.ask_run(Op::SshFeed, w)? {
        Err(e) => Err(
            fail(run, cat3("could not run ssh-keygen: ", e.as_str(), "\n").as_str(), 1),
        ),
        Ok(f) => if !f.fed {
            Err(Halt::Abort("write to ssh-keygen".to_string()))
        } else if !f.success() {
            let reason = trim(f.errors().as_str());
            Err(
                fail(
                    run,
                    cat3("ssh-keygen sign failed: ", reason.as_str(), "\n").as_str(),
                    1,
                ),
            )
        } else {
            Ok(f.output())
        },
    }
}

/// What running `ssh-keygen` for what it writes comes to.
pub open spec fn play_ssh_capture(
    log: Seq<Exchange>,
    at: int,
    args: Seq<Seq<char>>,
) -> Outcome<Option<Seq<char>>> {
    match asked_ran(log, at, Op::SshCapture, args) {
        Outcome::Stop(s) => Outcome::Stop(s),
        Outcome::Done(f, at) => Outcome::Done(captured(f), at),
    }
}

/// Runs `ssh-keygen` for what it writes.
pub fn ssh_capture(run: &mut Run, args: Vec<String>) -> (r: Result<Option<String>, Halt>)
    ensures
        goes_on(*final(run), *old(run)),
        came_to(r, *final(run), play_ssh_capture(old(run).log@, old(run).at as int, texts(args@))),
{
    let f = run.ask_ran(Op::SshCapture, args)?;
    Ok(capture(f))
}

// ---------------------------------------------------------------------------
// Signing.
// ---------------------------------------------------------------------------

/// The key and the signer that the arguments of `sign` from the `i`-th on leave,
/// with those that were given before. A flag takes the argument after it, and the
/// last one of its kind counts. There is nothing when anything else is given.
pub open spec fn sign_args_from(
    args: Seq<Seq<char>>,
    i: int,
    key: Option<Seq<char>>,
    signer: Option<Seq<char>>,
) -> Option<(Option<Seq<char>>, Option<Seq<char>>)>
    decreases args.len() + 1 - i,
{
    if i >= args.len() {
        Some((key, signer))
    } else {
        let given = if i + 1 < args.len() {
            Some(args[i + 1])
        } else {
            None
        };
        if args[i] == "--key"@ {
            sign_args_from(args, i + 2, given, signer)
        } else if args[i] == "--signer"@ {
            sign_args_from(args, i + 2, key, given)
        } else {
            None
        }
    }
}

/// The key and the signer that the arguments of `sign` name. There is nothing
/// without a key.
pub open spec fn sign_args(args: Seq<Seq<char>>) -> Option<(Seq<char>, Option<Seq<char>>)> {
    match sign_args_from(args, 0, None, None) {
        Some((Some(key), signer)) => Some((key, signer)),
        _ => None,
    }
}

/// The argument at a place, if there is one.
fn argument(args: &Vec<String>, i: usize) -> (r: Option<String>)
    ensures
        maybe(r) == (if i < args@.len() {
            Some(args@[i as int]@)
        } else {
            None
        }),
{
    if i < args.len() {
        Some(args[i].clone())
    } else {
        None
    }
}

/// The key and the signer that the arguments of `sign` name.
pub fn parse_sign_args(args: &Vec<String>) -> (r: Option<(String, Option<String>)>)
    ensures
        match r {
            Some((key, signer)) => sign_args(texts(args@)) == Some((key@, maybe(signer))),
            None => sign_args(texts(args@)) is None,
        },
{
    let ghost all = texts(args@);
    let n: usize = args.len();
    let mut key: Option<String> = None;
    let mut signer: Option<String> = None;
    let mut i: usize = 0;
    while i < n
        invariant
            n == args@.len(),
            all == texts(args@),
            sign_args_from(all, 0, None, None) == sign_args_from(
                all,
                i as int,
                maybe(key),
                maybe(signer),
            ),
        decreases n - i,
    {
        assert(all[i as int] == args@[i as int]@);
        if i + 1 < n {
            assert(all[i + 1] == args@[i + 1]@);
        }
        if same(args[i].as_str(), "--key") {
            key = argument(args, i + 1);
        } else if same(args[i].as_str(), "--signer") {
            signer = argument(args, i + 1);
        } else {
            return None;
        }
        assert(sign_args_from(all, 0, None, None) == sign_args_from(
            all,
            i + 2,
            maybe(key),
            maybe(signer),
        ));
        if n - i <= 2 {
            i = n;
        } else {
            i = i + 2;
        }
    }
    match key {
        Some(k) => Some((k, signer)),
        None => None,
    }
}

/// Whether a list of signers holds a line, white space at either end aside.
pub open spec fn line_known(text: Seq<char>, line: Seq<char>) -> bool {
    exists|i: int|
        0 <= i < lines_of(text).len() && trimmed(#[trigger] lines_of(text)[i]) == trimmed(line)
}

/// Whether a list of signers holds a line, white space at either end aside.
pub fn knows_line(text: &str, line: &str) -> (r: bool)
    ensures
        r == line_known(text@, line@),
{
    let list = lines(text);
    let wanted = trim(line);
    let mut i: usize = 0;
    while i < list.len()
        invariant
            i <= list@.len(),
            texts(list@) == lines_of(text@),
            wanted@ == trimmed(line@),
            forall|j: int| 0 <= j < i ==> trimmed(#[trigger] lines_of(text@)[j]) != wanted@,
        decreases list@.len() - i,
    {
        assert(lines_of(text@)[i as int] == list@[i as int]@);
        if same(trim(list[i].as_str()).as_str(), wanted.as_str()) {
            return true;
        }
        i = i + 1;
    }
    assert(texts(list@).len() == list@.len());
    false
}

/// What is appended to a list of signers to give it a line of its own.
pub open spec fn line_added(text: Seq<char>, line: Seq<char>) -> Seq<char> {
    (if text.len() > 0 && text.last() != '\n' {
        "\n"@
    } else {
        seq![]
    }) + line + "\n"@
}

/// What is appended to a list of signers to give it a line of its own.
pub fn added_line(text: &str, line: &str) -> (r: String)
    ensures
        r@ == line_added(text@, line@),
{
    let v = chars(text);
    let mut s = String::new();
    if v.len() > 0 && v[v.len() - 1] != '\n' {
        s.append("\n");
        assert(s@ =~= "\n"@);
    }
    s.append(line);
    s.append("\n");
    s
}

/// What listing a signer comes to: a line that is there already is not added, and
/// one that is added stands on its own.
pub open spec fn play_list_signer(
    log: Seq<Exchange>,
    at: int,
    path: Seq<char>,
    line: Seq<char>,
) -> Outcome<()> {
    match asked_text(log, at, Op::ReadText, seq![path]) {
        Outcome::Stop(s) => Outcome::Stop(s),
        Outcome::Done(text, at) => if line_known(or_empty(text), line) {
            Outcome::Done((), at)
        } else {
            asked_done(log, at, Op::AppendText, seq![path, line_added(or_empty(text), line)])
        },
    }
}

/// Adds a line to the list of signers, unless it is there.
pub fn list_signer(run: &mut Run, path: &str, line: &str) -> (r: Result<(), Halt>)
    ensures
        goes_on(*final(run), *old(run)),
        came_to(
            r,
            *final(run),
            play_list_signer(old(run).log@, old(run).at as int, path@, line@),
        ),
{
    let text = match run.ask_text(Op::ReadText, one(path))? {
        Some(text) => text,
        None => String::new(),
    };
    if knows_line(text.as_str(), line) {
        Ok(())
    } else {
        run.ask_done(Op::AppendText, two(path, added_line(text.as_str(), line).as_str()))
    }
}

/// What finding out who signs comes to: the signer that was given, or the user.
pub open spec fn play_principal(
    log: Seq<Exchange>,
    at: int,
    signer: Option<Seq<char>>,
) -> Outcome<Seq<char>> {
    match signer {
        Some(p) => Outcome::Done(p, at),
        None => match play_git_capture(log, at, seq!["config"@, "user.email"@]) {
            Outcome::Stop(s) => Outcome::Stop(s),
            Outcome::Done(Some(p), at) => Outcome::Done(p, at),
            Outcome::Done(None, at) => Outcome::Stop(
                failing(log, at, "no --signer given and git user.email is unset\n"@, 1),
            ),
        },
    }
}

/// Who signs: the signer that was given, or the user that `git` knows.
pub fn find_principal(run: &mut Run, signer: Option<String>) -> (r: Result<String, Halt>)
    ensures
        goes_on(*final(run), *old(run)),
        came_to(r, *final(run), play_principal(old(run).log@, old(run).at as int, maybe(signer))),
{
    match signer {
        Some(p) => Ok(p),
        None => match git_capture(run, two("config", "user.email"))? {
            Some(p) => Ok(p),
            None => Err(fail(run, "no --signer given and git user.email is unset\n", 1)),
        },
    }
}

/// What is said of a signature that was made.
pub open spec fn signed_notice(principal: Seq<char>, fingerprint: Seq<char>) -> Seq<char> {
    "signed "@ + CONFIG_FILE@ + " + "@ + HOOKS_DIR@ + "/ (excluding trust/) as "@ + principal
        + "\nsigning key fingerprint: "@ + fingerprint + "\ncommit "@ + HOOKS_DIR@
        + "/trust/ so cloners who trust this key are never prompted.\n"@
}

/// What is said of a signature that was made.
pub fn signed_text(principal: &str, fingerprint: &str) -> (r: String)
    ensures
        r@ == signed_notice(principal@, fingerprint@),
{
    let mut s = cat3("signed ", CONFIG_FILE, " + ");
    s.append(HOOKS_DIR);
    s.append("/ (excluding trust/) as ");
    s.append(principal);
    s.append("\nsigning key fingerprint: ");
    s.append(fingerprint);
    s.append("\ncommit ");
    s.append(HOOKS_DIR);
    s.append("/trust/ so cloners who trust this key are never prompted.\n");
    s
}

/// What making the signature comes to.
pub open spec fn play_make_signature(
    windows: bool,
    log: Seq<Exchange>,
    at: int,
    root: Seq<char>,
    key: Seq<char>,
) -> Outcome<()> {
    match play_canonical_content(windows, log, at, root, true) {
        Outcome::Stop(s) => Outcome::Stop(s),
        Outcome::Done(content, at) => match play_ssh_sign(log, at, key, content) {
            Outcome::Stop(s) => Outcome::Stop(s),
            Outcome::Done(signature, at) => match asked_done(
                log,
                at,
                Op::CreateDirs,
                seq![trust_path(windows, root)],
            ) {
                Outcome::Stop(s) => Outcome::Stop(s),
                Outcome::Done(_, at) => asked_done(
                    log,
                    at,
                    Op::WriteText,
                    seq![sig_path(windows, root), signature],
                ),
            },
        },
    }
}

/// Signs the canonical content without `trust/`, and writes the signature there.
pub fn make_signature(run: &mut Run, root: &str, key: &str) -> (r: Result<(), Halt>)
    ensures
        goes_on(*final(run), *old(run)),
        came_to(
            r,
            *final(run),
            play_make_signature(old(run).windows, old(run).log@, old(run).at as int, root@, key@),
        ),
{
    let content = canonical_content(run, root, true)?;
    let signature = ssh_sign(run, key, content.as_str())?;
    let dir = trust_dir(run.windows, root);
    run.ask_done(Op::CreateDirs, one(dir.as_str()))?;
    let sig = join_path(run.windows, dir.as_str(), "hooks.sig");
    run.ask_done(Op::WriteText, two(sig.as_str(), signature.as_str()))
}

/// What listing the signer and saying so comes to.
pub open spec fn play_announce_signer(
    windows: bool,
    log: Seq<Exchange>,
    at: int,
    root: Seq<char>,
    key: Seq<char>,
    signer: Option<Seq<char>>,
) -> Outcome<()> {
    match play_principal(log, at, signer) {
        Outcome::Stop(s) => Outcome::Stop(s),
        Outcome::Done(principal, at) => match play_ssh_capture(log, at, seq!["-y"@, "-f"@, key]) {
            Outcome::Stop(s) => Outcome::Stop(s),
            Outcome::Done(None, at) => Outcome::Stop(
                failing(log, at, "could not read public key from "@ + key + "\n"@, 1),
            ),
            Outcome::Done(Some(pubkey), at) => match play_list_signer(
                log,
                at,
                signers_path(windows, root),
                principal + " "@ + pubkey,
            ) {
                Outcome::Stop(s) => Outcome::Stop(s),
                Outcome::Done(_, at) => match play_ssh_capture(log, at, seq!["-lf"@, key]) {
                    Outcome::Stop(s) => Outcome::Stop(s),
                    Outcome::Done(shown, at) => play_say(
                        log,
                        at,
                        signed_notice(principal, second_word(or_empty(shown))),
                    ),
                },
            },
        },
    }
}

/// Sees to it that the signer's public key is listed, and says what was signed.
pub fn announce_signer(run: &mut Run, root: &str, key: &str, signer: Option<String>) -> (r: Result<
    (),
    Halt,
>)
    ensures
        goes_on(*final(run), *old(run)),
        came_to(
            r,
            *final(run),
            play_announce_signer(
                old(run).windows,
                old(run).log@,
                old(run).at as int,
                root@,
                key@,
                maybe(signer),
            ),
        ),
{
    let principal = find_principal(run, signer)?;
    let w = owned(vec!["-y", "-f", key]);
    assert(texts(w@) =~= seq!["-y"@, "-f"@, key@]);
    let pubkey = match ssh_capture(run, w)? {
        Some(pubkey) => pubkey,
        None => {
            let notice = cat3("could not read public key from ", key, "\n");
            return Err(fail(run, notice.as_str(), 1));
        },
    };
    let line = cat3(principal.as_str(), " ", pubkey.as_str());
    let signers = join_path(run.windows, trust_dir(run.windows, root).as_str(), "allowed_signers");
    list_signer(run, signers.as_str(), line.as_str())?;
    let shown = match ssh_capture(run, two("-lf", key))? {
        Some(shown) => shown,
        None => String::new(),
    };
    let fingerprint = fingerprint_field(shown.as_str());
    say(run, signed_text(principal.as_str(), fingerprint.as_str()).as_str())
}

/// What signing the hooks comes to.
pub open spec fn play_sign(
    windows: bool,
    log: Seq<Exchange>,
    at: int,
    args: Seq<Seq<char>>,
) -> Outcome<()> {
    match sign_args(args) {
        None => Outcome::Stop(usage_stop(log, at)),
        Some((key, signer)) => match play_need_root(log, at) {
            Outcome::Stop(s) => Outcome::Stop(s),
            Outcome::Done(root, at) => match asked_flag(
                log,
                at,
                Op::IsFile,
                seq![path_joined(windows, root, CONFIG_FILE@)],
            ) {
                Outcome::Stop(s) => Outcome::Stop(s),
                Outcome::Done(false, at) => Outcome::Stop(
                    failing(log, at, "no "@ + CONFIG_FILE@ + " to sign in this repository\n"@, 1),
                ),
                Outcome::Done(true, at) => match play_make_signature(windows, log, at, root, key) {
                    Outcome::Stop(s) => Outcome::Stop(s),
                    Outcome::Done(_, at) => play_announce_signer(
                        windows,
                        log,
                        at,
                        root,
                        key,
                        signer,
                    ),
                },
            },
        },
    }
}

/// `git hooks sign --key <path> [--signer <principal>]`: signs the canonical
/// content without `trust/` with an ssh key, writes the signature there and sees
/// to it that the signer's public key is listed. Says the fingerprint of the key.
pub fn sign(run: &mut Run, args: &Vec<String>) -> (r: Result<(), Halt>)
    ensures
        goes_on(*final(run), *old(run)),
        came_to(
            r,
            *final(run),
            play_sign(old(run).windows, old(run).log@, old(run).at as int, texts(args@)),
        ),
{
    let (key, signer) = match parse_sign_args(args) {
        Some(given) => given,
        None => return Err(usage(run)),
    };
    let root = need_root(run)?;
    let config = join_path(run.windows, root.as_str(), CONFIG_FILE);
    if !run.ask_flag(Op::IsFile, one(config.as_str()))? {
        let notice = cat3("no ", CONFIG_FILE, " to sign in this repository\n");
        return Err(fail(run, notice.as_str(), 1));
    }
    make_signature(run, root.as_str(), key.as_str())?;
    announce_signer(run, root.as_str(), key.as_str(), signer)
}

// ---------------------------------------------------------------------------
// Trusting keys.
// ---------------------------------------------------------------------------

/// The key that the arguments of `trust` and `untrust` name, and whether they
/// speak of the org-wide policy: one argument besides any `--global`, in any
/// order.
pub open spec fn trust_args(args: Seq<Seq<char>>) -> Option<(Seq<char>, bool)> {
    let keys = args.filter(|a: Seq<char>| a != "--global"@);
    if keys.len() == 1 {
        Some((keys[0], args.contains("--global"@)))
    } else {
        None
    }
}

/// A longer list keeps no fewer of its items.
proof fn lemma_filter_take(args: Seq<Seq<char>>, i: int, keep: spec_fn(Seq<char>) -> bool)
    requires
        0 <= i <= args.len(),
    ensures
        args.take(i).filter(keep).len() <= args.filter(keep).len(),
    decreases args.len() - i,
{
    reveal(Seq::filter);
    if i < args.len() {
        assert(args.take(i + 1).drop_last() =~= args.take(i));
        lemma_filter_take(args, i + 1, keep);
    } else {
        assert(args.take(i) =~= args);
    }
}

/// Parses `<fingerprint> [--global]` in any order.
pub fn parse_trust_args(args: &Vec<String>) -> (r: Option<(String, bool)>)
    ensures
        match r {
            Some((key, global)) => trust_args(texts(args@)) == Some((key@, global)),
            None => trust_args(texts(args@)) is None,
        },
{
    let ghost all = texts(args@);
    let ghost keep = |a: Seq<char>| a != "--global"@;
    let mut found: Option<String> = None;
    let mut global = false;
    let mut i: usize = 0;
    assert(all.take(0).filter(keep) =~= seq![]) by {
        reveal(Seq::filter);
    }
    while i < args.len()
        invariant
            i <= args@.len(),
            all == texts(args@),
            keep == (|a: Seq<char>| a != "--global"@),
            all.take(i as int).filter(keep) == (match found {
                Some(k) => seq![k@],
                None => seq![],
            }),
            global == exists|j: int| 0 <= j < i && #[trigger] all[j] == "--global"@,
        decreases args@.len() - i,
    {
        let ghost seen = all.take(i as int).filter(keep);
        assert(all[i as int] == args@[i as int]@);
        assert(all.take(i + 1).drop_last() =~= all.take(i as int));
        assert(all.take(i + 1).filter(keep) == if keep(all[i as int]) {
            seen.push(all[i as int])
        } else {
            seen
        }) by {
            reveal(Seq::filter);
        }
        if same(args[i].as_str(), "--global") {
            global = true;
        } else if found.is_none() {
            found = Some(args[i].clone());
            assert(seen.push(all[i as int]) =~= seq![args@[i as int]@]);
        } else {
            proof {
                assert(all.take(i + 1).filter(keep).len() == 2);
                lemma_filter_take(all, i + 1, keep);
            }
            return None;
        }
        i = i + 1;
    }
    assert(all.take(i as int) =~= all);
    assert(global == all.contains("--global"@));
    match found {
        Some(k) => Some((k, global)),
        None => None,
    }
}

/// Where the policy is, below the home directory.
pub open spec fn policy_place() -> Seq<char> {
    ".config/git-hooks/policy.toml"@
}

/// What writing the policy comes to.
pub open spec fn play_write_policy(
    windows: bool,
    log: Seq<Exchange>,
    at: int,
    doc: Entries,
) -> Outcome<()> {
    match play_home(log, at) {
        Outcome::Stop(s) => Outcome::Stop(s),
        Outcome::Done(h, at) => match asked_done(
            log,
            at,
            Op::CreateDirs,
            seq![path_joined(windows, h, ".config/git-hooks"@)],
        ) {
            Outcome::Stop(s) => Outcome::Stop(s),
            Outcome::Done(_, at) => match toml_printed(doc) {
                None => Outcome::Stop(Stop::Abort("print the policy"@)),
                Some(text) => asked_done(
                    log,
                    at,
                    Op::WriteText,
                    seq![path_joined(windows, h, policy_place()), text],
                ),
            },
        },
    }
}

/// Writes the org-wide policy.
pub fn write_policy(run: &mut Run, doc: Document) -> (r: Result<(), Halt>)
    requires
        entries_ordered(table_nodes(doc@)),
    ensures
        goes_on(*final(run), *old(run)),
        came_to(
            r,
            *final(run),
            play_write_policy(
                old(run).windows,
                old(run).log@,
                old(run).at as int,
                table_nodes(doc@),
            ),
        ),
        r is Ok && simple_document(table_nodes(doc@)) ==> prints_well(table_nodes(doc@)),
{
    let h = home(run)?;
    let dir = join_path(run.windows, h.as_str(), ".config/git-hooks");
    run.ask_done(Op::CreateDirs, one(dir.as_str()))?;
    match write_document(doc) {
        None => Err(Halt::Abort("print the policy".to_string())),
        Some(text) => {
            let path = join_path(run.windows, h.as_str(), ".config/git-hooks/policy.toml");
            run.ask_done(Op::WriteText, two(path.as_str(), text.as_str()))
        },
    }
}

/// What is said where there is no repository to trust a key in.
pub open spec fn no_repository_notice() -> Seq<char> {
    "not inside a git repository (use --global for the org policy file)\n"@
}

/// What trusting a key by the policy comes to.
pub open spec fn play_trust_globally(
    windows: bool,
    log: Seq<Exchange>,
    at: int,
    key: Seq<char>,
) -> Outcome<()> {
    match play_policy(windows, log, at) {
        Outcome::Stop(s) => Outcome::Stop(s),
        Outcome::Done(doc, at) => match with_key(doc, key) {
            Err(e) => Outcome::Stop(Stop::Abort(e)),
            Ok(doc) => match play_write_policy(windows, log, at, doc) {
                Outcome::Stop(s) => Outcome::Stop(s),
                Outcome::Done(_, at) => match play_home_path(windows, log, at, policy_place()) {
                    Outcome::Stop(s) => Outcome::Stop(s),
                    Outcome::Done(path, at) => play_say(
                        log,
                        at,
                        "globally trusted signing key "@ + key + " ("@ + path + ")\n"@,
                    ),
                },
            },
        },
    }
}

/// What trusting a key in the repository comes to.
pub open spec fn play_trust_locally(log: Seq<Exchange>, at: int, key: Seq<char>) -> Outcome<()> {
    match play_repo_root(log, at) {
        Outcome::Stop(s) => Outcome::Stop(s),
        Outcome::Done(None, at) => Outcome::Stop(failing(log, at, no_repository_notice(), 1)),
        Outcome::Done(Some(_), at) => match play_add_local_trusted_key(log, at, key) {
            Outcome::Stop(s) => Outcome::Stop(s),
            Outcome::Done(_, at) => play_say(
                log,
                at,
                "trusted signing key "@ + key + " for this repository.\n"@,
            ),
        },
    }
}

/// What the command `trust` comes to.
pub open spec fn play_trust_cmd(
    windows: bool,
    log: Seq<Exchange>,
    at: int,
    args: Seq<Seq<char>>,
) -> Outcome<()> {
    match trust_args(args) {
        None => Outcome::Stop(usage_stop(log, at)),
        Some((key, true)) => play_trust_globally(windows, log, at, key),
        Some((key, false)) => play_trust_locally(log, at, key),
    }
}

/// `git hooks trust <fingerprint> [--global]`.
pub fn trust_cmd(run: &mut Run, args: &Vec<String>) -> (r: Result<(), Halt>)
    ensures
        goes_on(*final(run), *old(run)),
        came_to(
            r,
            *final(run),
            play_trust_cmd(old(run).windows, old(run).log@, old(run).at as int, texts(args@)),
        ),
        r is Ok ==> (trust_args(texts(args@)) matches Some((key, true)) ==> (play_policy(
            old(run).windows,
            old(run).log@,
            old(run).at as int,
        ) matches Outcome::Done(doc, _) ==> simple_document(doc) ==> with_key(doc, key) is Ok
            && prints_well(with_key(doc, key)->Ok_0))),
{
    let (key, global) = match parse_trust_args(args) {
        Some(given) => given,
        None => return Err(usage(run)),
    };
    if global {
        let doc = policy(run)?;
        proof {
            if simple_document(table_nodes(doc@)) {
                law_policy_stays_simple(table_nodes(doc@), key@);
            }
        }
        let doc = match trust_key(doc, key.as_str()) {
            Ok(doc) => doc,
            Err(e) => return Err(Halt::Abort(e)),
        };
        write_policy(run, doc)?;
        let path = policy_path(run)?;
        let mut notice = cat3("globally trusted signing key ", key.as_str(), " (");
        notice.append(path.as_str());
        notice.append(")\n");
        say(run, notice.as_str())
    } else {
        if repo_root(run)?.is_none() {
            return Err(
                fail(
                    run,
                    "not inside a git repository (use --global for the org policy file)\n",
                    1,
                ),
            );
        }
        add_local_trusted_key(run, key.as_str())?;
        let notice = cat3("trusted signing key ", key.as_str(), " for this repository.\n");
        say(run, notice.as_str())
    }
}

/// What trusting the keys from the `i`-th on comes to.
pub open spec fn play_add_keys(
    log: Seq<Exchange>,
    at: int,
    keys: Seq<Seq<char>>,
    i: int,
) -> Outcome<
    (),
>
    decreases keys.len() - i,
{
    if i >= keys.len() {
        Outcome::Done((), at)
    } else {
        match play_git(log, at, key_addition(keys[i])) {
            Outcome::Stop(s) => Outcome::Stop(s),
            Outcome::Done(_, at) => play_add_keys(log, at, keys, i + 1),
        }
    }
}

/// Trusts keys in the repository, one after another.
pub fn add_keys(run: &mut Run, keys: &Vec<String>) -> (r: Result<(), Halt>)
    ensures
        goes_on(*final(run), *old(run)),
        came_to(r, *final(run), play_add_keys(old(run).log@, old(run).at as int, texts(keys@), 0)),
{
    let ghost all = texts(keys@);
    let mut i: usize = 0;
    while i < keys.len()
        invariant
            goes_on(*run, *old(run)),
            i <= keys@.len(),
            all == texts(keys@),
            play_add_keys(old(run).log@, old(run).at as int, all, 0) == play_add_keys(
                old(run).log@,
                run.at as int,
                all,
                i as int,
            ),
        decreases keys@.len() - i,
    {
        assert(all[i as int] == keys@[i as int]@);
        add_key(run, keys[i].as_str())?;
        i = i + 1;
    }
    Ok(())
}

/// Being another key than the given one.
pub open spec fn other_than(key: Seq<char>) -> spec_fn(Seq<char>) -> bool {
    |k: Seq<char>| k != key
}

/// The keys of a list other than the given one.
pub open spec fn keys_other_than(keys: Seq<Seq<char>>, key: Seq<char>) -> Seq<Seq<char>> {
    keys.filter(other_than(key))
}

/// The keys of a list other than the given one.
pub fn other_keys(keys: &Vec<String>, key: &str) -> (r: Vec<String>)
    ensures
        texts(r@) == keys_other_than(texts(keys@), key@),
{
    let ghost all = texts(keys@);
    let ghost keep = other_than(key@);
    let mut out: Vec<String> = Vec::new();
    let mut i: usize = 0;
    assert(texts(out@) =~= all.take(0).filter(keep)) by {
        reveal(Seq::filter);
    }
    while i < keys.len()
        invariant
            i <= keys@.len(),
            all == texts(keys@),
            keep == other_than(key@),
            texts(out@) == all.take(i as int).filter(keep),
        decreases keys@.len() - i,
    {
        let ghost seen = out@;
        assert(all.take(i + 1).drop_last() =~= all.take(i as int));
        if !same(keys[i].as_str(), key) {
            out.push(keys[i].clone());
            assert(texts(out@) =~= texts(seen).push(keys@[i as int]@));
        }
        assert(texts(out@) =~= all.take(i + 1).filter(keep)) by {
            reveal(Seq::filter);
        }
        i = i + 1;
    }
    assert(all.take(i as int) =~= all);
    out
}

/// How `git` is told to forget the keys that are trusted in the repository.
pub open spec fn keys_removal() -> Seq<Seq<char>> {
    seq!["config"@, "--local"@, "--unset-all"@, "hooks.trustedKey"@]
}

/// What no longer trusting a key by the policy comes to.
pub open spec fn play_untrust_globally(
    windows: bool,
    log: Seq<Exchange>,
    at: int,
    key: Seq<char>,
) -> Outcome<()> {
    match play_policy(windows, log, at) {
        Outcome::Stop(s) => Outcome::Stop(s),
        Outcome::Done(doc, at) => match play_write_policy(windows, log, at, without_key(doc, key)) {
            Outcome::Stop(s) => Outcome::Stop(s),
            Outcome::Done(_, at) => play_say(
                log,
                at,
                "removed "@ + key + " from global trust.\n"@,
            ),
        },
    }
}

/// What no longer trusting a key in the repository comes to.
pub open spec fn play_untrust_locally(log: Seq<Exchange>, at: int, key: Seq<char>) -> Outcome<()> {
    match play_repo_root(log, at) {
        Outcome::Stop(s) => Outcome::Stop(s),
        Outcome::Done(None, at) => Outcome::Stop(failing(log, at, no_repository_notice(), 1)),
        Outcome::Done(Some(_), at) => match play_local_trusted_keys(log, at) {
            Outcome::Stop(s) => Outcome::Stop(s),
            Outcome::Done(keys, at) => match play_git_capture(log, at, keys_removal()) {
                Outcome::Stop(s) => Outcome::Stop(s),
                Outcome::Done(_, at) => match play_add_keys(
                    log,
                    at,
                    keys_other_than(keys, key),
                    0,
                ) {
                    Outcome::Stop(s) => Outcome::Stop(s),
                    Outcome::Done(_, at) => play_say(
                        log,
                        at,
                        "untrusted "@ + key + " for this repository.\n"@,
                    ),
                },
            },
        },
    }
}

/// What the command `untrust` comes to.
pub open spec fn play_untrust_cmd(
    windows: bool,
    log: Seq<Exchange>,
    at: int,
    args: Seq<Seq<char>>,
) -> Outcome<
    (),
> {
    match trust_args(args) {
        None => Outcome::Stop(usage_stop(log, at)),
        Some((key, true)) => play_untrust_globally(windows, log, at, key),
        Some((key, false)) => play_untrust_locally(log, at, key),
    }
}

/// `git hooks untrust <fingerprint> [--global]`. In the repository the keys are
/// written anew without the one that is removed, since `git` would take its
/// fingerprint for a pattern.
pub fn untrust_cmd(run: &mut Run, args: &Vec<String>) -> (r: Result<(), Halt>)
    ensures
        goes_on(*final(run), *old(run)),
        came_to(
            r,
            *final(run),
            play_untrust_cmd(old(run).windows, old(run).log@, old(run).at as int, texts(args@)),
        ),
        r is Ok ==> (trust_args(texts(args@)) matches Some((key, true)) ==> (play_policy(
            old(run).windows,
            old(run).log@,
            old(run).at as int,
        ) matches Outcome::Done(doc, _) ==> simple_document(doc) ==> prints_well(
            without_key(doc, key),
        ))),
{
    let (key, global) = match parse_trust_args(args) {
        Some(given) => given,
        None => return Err(usage(run)),
    };
    if global {
        let doc = policy(run)?;
        proof {
            if simple_document(table_nodes(doc@)) {
                law_policy_stays_simple(table_nodes(doc@), key@);
            }
        }
        let doc = untrust_key(doc, key.as_str());
        write_policy(run, doc)?;
        let notice = cat3("removed ", key.as_str(), " from global trust.\n");
        say(run, notice.as_str())
    } else {
        if repo_root(run)?.is_none() {
            return Err(
                fail(
                    run,
                    "not inside a git repository (use --global for the org policy file)\n",
                    1,
                ),
            );
        }
        let keys = local_trusted_keys(run)?;
        let remaining = other_keys(&keys, key.as_str());
        let w = owned(vec!["config", "--local", "--unset-all", "hooks.trustedKey"]);
        assert(texts(w@) =~= keys_removal());
        let _ = git_capture(run, w)?;
        add_keys(run, &remaining)?;
        let notice = cat3("untrusted ", key.as_str(), " for this repository.\n");
        say(run, notice.as_str())
    }
}

/// Wherever `--global` stands among the arguments, it means the same.
pub proof fn law_global_anywhere(a: Seq<Seq<char>>, b: Seq<Seq<char>>)
    ensures
        trust_args(a + seq!["--global"@] + b) == (match trust_args(a + b) {
            Some((key, _)) => Some((key, true)),
            None => None,
        }),
{
    let keep = |x: Seq<char>| x != "--global"@;
    let flag = seq!["--global"@];
    Seq::filter_distributes_over_add(a, b, keep);
    Seq::filter_distributes_over_add(a, flag, keep);
    Seq::filter_distributes_over_add(a + flag, b, keep);
    assert(flag.filter(keep) =~= seq![]) by {
        reveal_with_fuel(Seq::filter, 2);
        assert(flag.drop_last() =~= seq![]);
        assert(flag.last() == "--global"@);
    }
    assert((a + flag).filter(keep) =~= a.filter(keep));
    let all = a + flag + b;
    assert(all[a.len() as int] == "--global"@);
    assert(all.contains("--global"@));
}

/// A key that is no longer trusted in the repository is not among the keys that
/// are written anew, and every other key that was trusted is.
pub proof fn law_not_trusted_after_untrust_locally(keys: Seq<Seq<char>>, key: Seq<char>)
    ensures
        forall|k: Seq<char>| #[trigger]
            keys_other_than(keys, key).contains(k) <==> k != key && keys.contains(k),
{
    let keep = other_than(key);
    let fewer = keys.filter(keep);
    assert forall|k: Seq<char>| #[trigger] keys_other_than(keys, key).contains(k) <==> k != key
        && keys.contains(k) by {
        broadcast use vstd::seq_lib::group_filter_ensures;

        if fewer.contains(k) {
            keys.lemma_filter_contains_rev(keep, k);
            let i = choose|i: int| 0 <= i < fewer.len() && fewer[i] == k;
            assert(keep(fewer[i]));
        }
        if k != key && keys.contains(k) {
            let i = choose|i: int| 0 <= i < keys.len() && keys[i] == k;
            assert(keep(keys[i]));
            assert(fewer.contains(keys[i]));
        }
    }
}

/// A key that was trusted in the repository, and every key that was before, is
/// read back as trusted. The keys are printed one per line; none may hold a line
/// feed or begin or end in white space.
pub proof fn law_trusted_after_trust_locally(keys: Seq<Seq<char>>, key: Seq<char>)
    requires
        forall|i: int|
            0 <= i < keys.push(key).len() ==> {
                let k = #[trigger] keys.push(key)[i];
                !k.contains('\n') && k.len() > 0 && !is_space(k[0]) && !is_space(k.last())
            },
    ensures
        lines_of(trimmed(joined(keys.push(key), "\n"@) + "\n"@)) == keys.push(key),
        keys.push(key).contains(key),
{
    let list = keys.push(key);
    assert(list[0] == list[0]);
    assert(list[list.len() - 1] == key);
    assert forall|i: int| 0 <= i < list.len() && (#[trigger] list[i]).len() > 0 implies list[i].last()
        != '\r' by {
        assert(!is_space(list[i].last()));
    }
    law_lines_read_back(list);
}

/// A signer that is added gets a line of their own, after the lines that were
/// there, whether or not the last of these was ended. Neither that one nor the new
/// one may end in a carriage return.
pub proof fn law_signer_gets_a_line(text: Seq<char>, line: Seq<char>)
    requires
        !line.contains('\n'),
        line.len() > 0 ==> line.last() != '\r',
        text.len() > 0 ==> text.last() != '\r',
    ensures
        lines_of(text + line_added(text, line)) == lines_of(text).push(line),
{
    reveal_strlit("\n");
    lemma_one_line(line);
    if text.len() > 0 && text.last() != '\n' {
        let ended = text + "\n"@;
        lemma_lines_ended(text);
        lemma_lines_add(ended, line + "\n"@);
        assert(text + line_added(text, line) =~= ended + (line + "\n"@));
    } else {
        lemma_lines_add(text, line + "\n"@);
        assert(text + line_added(text, line) =~= text + (line + "\n"@));
    }
    assert(lines_of(text) + seq![line] =~= lines_of(text).push(line));
}

} // verus!
