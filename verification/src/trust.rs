//! Signed trust. A maintainer signs the canonical content with an ssh key; the
//! signature and the list of those who may sign live under `trust/`. Whoever
//! trusts the fingerprint of the signing key, in the repository or by the
//! org-wide policy, is not asked. The namespace is pinned, so that a signature
//! made for another tool cannot be replayed.
use crate::content::{canonical_content, play_canonical_content};
use crate::document::{entries_of, entries_ordered, read_or_empty, table_nodes, Document, Entries};
use crate::git::{
    git, git_capture, play_git, play_git_capture, play_home_path, policy_path, trust_dir,
    trust_path,
};
use crate::paths::{join_path, path_joined};
use crate::policy::{declines, default_decline, keys_trusted, trusted_keys};
use crate::signers::{good_key, parse_principals, principals, signing_key_field};
use crate::text::{cat2, lines, lines_of, listed, texts};
use crate::world::{
    asked_flag, asked_ran, asked_text, came_to, goes_on, one, owned, said, succeeded, Exchange,
    Halt, Op, Outcome, Run, Told,
};
use vstd::prelude::*;

verus! {

/// The namespace of every signature.
pub const SIG_NAMESPACE: &'static str = "git-hooks";

/// Result of checking the repository's signature against those who may sign.
pub enum Trust {
    /// No signature files present: an unsigned repository.
    Unsigned,
    /// Signature files present but nothing verifies.
    Invalid,
    /// A principal verified the canonical content.
    Valid {
        /// Who signed.
        principal: String,
        /// The fingerprint of the key that signed.
        fingerprint: String,
    },
}

/// The result of checking a signature, as a mathematical value.
pub enum Signed {
    /// No signature.
    Unsigned,
    /// A signature that does not verify.
    Invalid,
    /// A signature that does: the principal and the fingerprint of the key that
    /// signed.
    Valid(Seq<char>, Seq<char>),
}

impl View for Trust {
    type V = Signed;

    open spec fn view(&self) -> Signed {
        match self {
            Trust::Unsigned => Signed::Unsigned,
            Trust::Invalid => Signed::Invalid,
            Trust::Valid { principal, fingerprint } => Signed::Valid(principal@, fingerprint@),
        }
    }
}

impl Told for Trust {
    type Meaning = Signed;

    open spec fn told(self) -> Signed {
        self@
    }
}

// ---------------------------------------------------------------------------
// Checking the signature.
// ---------------------------------------------------------------------------

/// How `ssh-keygen` is asked whether a principal signed a content.
pub open spec fn verify_request(
    signers: Seq<char>,
    principal: Seq<char>,
    sig: Seq<char>,
    content: Seq<char>,
) -> Seq<Seq<char>> {
    seq![
        content,
        "-Y"@,
        "verify"@,
        "-f"@,
        signers,
        "-I"@,
        principal,
        "-n"@,
        SIG_NAMESPACE@,
        "-s"@,
        sig,
    ]
}

/// What asking whether a principal signed a content comes to: the fingerprint of
/// the key that the signature was made with, if the signature is good.
pub open spec fn play_ssh_verify(
    log: Seq<Exchange>,
    at: int,
    signers: Seq<char>,
    principal: Seq<char>,
    sig: Seq<char>,
    content: Seq<char>,
) -> Outcome<Option<Seq<char>>> {
    match asked_ran(log, at, Op::SshFeed, verify_request(signers, principal, sig, content)) {
        Outcome::Stop(s) => Outcome::Stop(s),
        Outcome::Done(Some(f), at) => if succeeded(f) {
            Outcome::Done(Some(good_key(said(f))), at)
        } else {
            Outcome::Done(None, at)
        },
        Outcome::Done(None, at) => Outcome::Done(None, at),
    }
}

/// `ssh-keygen -Y verify` with the namespace pinned, the canonical content being
/// its input. Success means that this principal signed this content, with the key
/// whose fingerprint `ssh-keygen` then writes.
pub fn ssh_verify(
    run: &mut Run,
    signers: &str,
    principal: &str,
    sig: &str,
    content: &str,
) -> (r: Result<Option<String>, Halt>)
    ensures
        goes_on(*final(run), *old(run)),
        came_to(
            r,
            *final(run),
            play_ssh_verify(
                old(run).log@,
                old(run).at as int,
                signers@,
                principal@,
                sig@,
                content@,
            ),
        ),
{
    let w = owned(
        vec![
            content,
            "-Y",
            "verify",
            "-f",
            signers,
            "-I",
            principal,
            "-n",
            SIG_NAMESPACE,
            "-s",
            sig,
        ],
    );
    assert(texts(w@) =~= verify_request(signers@, principal@, sig@, content@));
    match run.ask_ran(Op::SshFeed, w)? {
        Some(f) if f.success() => Ok(Some(signing_key_field(f.output().as_str()))),
        _ => Ok(None),
    }
}

/// What asking who may sign comes to.
pub open spec fn play_allowed_principals(
    log: Seq<Exchange>,
    at: int,
    signers: Seq<char>,
) -> Outcome<Seq<Seq<char>>> {
    match asked_text(log, at, Op::ReadText, seq![signers]) {
        Outcome::Stop(s) => Outcome::Stop(s),
        Outcome::Done(Some(text), at) => Outcome::Done(principals(text), at),
        Outcome::Done(None, at) => Outcome::Done(seq![], at),
    }
}

/// The principals that may sign.
pub fn allowed_principals(run: &mut Run, signers: &str) -> (r: Result<Vec<String>, Halt>)
    ensures
        goes_on(*final(run), *old(run)),
        came_to(
            r,
            *final(run),
            play_allowed_principals(old(run).log@, old(run).at as int, signers@),
        ),
{
    match run.ask_text(Op::ReadText, one(signers))? {
        Some(text) => Ok(parse_principals(text.as_str())),
        None => {
            let none: Vec<String> = Vec::new();
            assert(texts(none@) =~= seq![]);
            Ok(none)
        },
    }
}

/// What trying the principals from the `i`-th on comes to.
pub open spec fn play_try_principals(
    log: Seq<Exchange>,
    at: int,
    signers: Seq<char>,
    sig: Seq<char>,
    content: Seq<char>,
    list: Seq<Seq<char>>,
    i: int,
) -> Outcome<Signed>
    decreases list.len() - i,
{
    if i >= list.len() {
        Outcome::Done(Signed::Invalid, at)
    } else {
        match play_ssh_verify(log, at, signers, list[i], sig, content) {
            Outcome::Stop(s) => Outcome::Stop(s),
            Outcome::Done(None, at) => play_try_principals(
                log,
                at,
                signers,
                sig,
                content,
                list,
                i + 1,
            ),
            Outcome::Done(Some(fingerprint), at) => Outcome::Done(
                Signed::Valid(list[i], fingerprint),
                at,
            ),
        }
    }
}

/// Where the signature of the repository at `root` is.
pub open spec fn sig_path(windows: bool, root: Seq<char>) -> Seq<char> {
    path_joined(windows, trust_path(windows, root), "hooks.sig"@)
}

/// Where those who may sign for the repository at `root` are listed.
pub open spec fn signers_path(windows: bool, root: Seq<char>) -> Seq<char> {
    path_joined(windows, trust_path(windows, root), "allowed_signers"@)
}

/// What checking the signature of the repository comes to.
pub open spec fn play_signature_status(
    windows: bool,
    log: Seq<Exchange>,
    at: int,
    root: Seq<char>,
) -> Outcome<
    Signed,
> {
    match asked_flag(log, at, Op::IsFile, seq![sig_path(windows, root)]) {
        Outcome::Stop(s) => Outcome::Stop(s),
        Outcome::Done(false, at) => Outcome::Done(Signed::Unsigned, at),
        Outcome::Done(true, at) => match asked_flag(
            log,
            at,
            Op::IsFile,
            seq![signers_path(windows, root)],
        ) {
            Outcome::Stop(s) => Outcome::Stop(s),
            Outcome::Done(false, at) => Outcome::Done(Signed::Unsigned, at),
            Outcome::Done(true, at) => match play_canonical_content(windows, log, at, root, true) {
                Outcome::Stop(s) => Outcome::Stop(s),
                Outcome::Done(content, at) => match play_allowed_principals(
                    log,
                    at,
                    signers_path(windows, root),
                ) {
                    Outcome::Stop(s) => Outcome::Stop(s),
                    Outcome::Done(list, at) => play_try_principals(
                        log,
                        at,
                        signers_path(windows, root),
                        sig_path(windows, root),
                        content,
                        list,
                        0,
                    ),
                },
            },
        },
    }
}

/// Verifies the signature of the repository over the canonical content without
/// `trust/`, trying each principal until one verifies.
pub fn signature_status(run: &mut Run, root: &str) -> (r: Result<Trust, Halt>)
    ensures
        goes_on(*final(run), *old(run)),
        came_to(
            r,
            *final(run),
            play_signature_status(old(run).windows, old(run).log@, old(run).at as int, root@),
        ),
{
    let dir = trust_dir(run.windows, root);
    let sig = join_path(run.windows, dir.as_str(), "hooks.sig");
    let signers = join_path(run.windows, dir.as_str(), "allowed_signers");
    if !run.ask_flag(Op::IsFile, one(sig.as_str()))? {
        return Ok(Trust::Unsigned);
    }
    if !run.ask_flag(Op::IsFile, one(signers.as_str()))? {
        return Ok(Trust::Unsigned);
    }
    let content = canonical_content(run, root, true)?;
    let list = allowed_principals(run, signers.as_str())?;
    let ghost all = texts(list@);
    let mut i: usize = 0;
    while i < list.len()
        invariant
            goes_on(*run, *old(run)),
            i <= list@.len(),
            all == texts(list@),
            play_signature_status(
                old(run).windows,
                old(run).log@,
                old(run).at as int,
                root@,
            ) == play_try_principals(
                old(run).log@,
                run.at as int,
                signers@,
                sig@,
                content@,
                all,
                i as int,
            ),
        decreases list@.len() - i,
    {
        assert(all[i as int] == list@[i as int]@);
        let principal = list[i].clone();
        if let Some(fingerprint) = ssh_verify(
            run,
            signers.as_str(),
            principal.as_str(),
            sig.as_str(),
            content.as_str(),
        )? {
            return Ok(Trust::Valid { principal, fingerprint });
        }
        i = i + 1;
    }
    Ok(Trust::Invalid)
}

// ---------------------------------------------------------------------------
// Trusted keys.
// ---------------------------------------------------------------------------

/// What reading the policy comes to.
pub open spec fn play_policy(windows: bool, log: Seq<Exchange>, at: int) -> Outcome<Entries> {
    match play_home_path(windows, log, at, ".config/git-hooks/policy.toml"@) {
        Outcome::Stop(s) => Outcome::Stop(s),
        Outcome::Done(path, at) => match asked_text(log, at, Op::ReadText, seq![path]) {
            Outcome::Stop(s) => Outcome::Stop(s),
            Outcome::Done(text, at) => Outcome::Done(entries_of(text), at),
        },
    }
}

/// The org-wide policy. One that is missing or does not parse is empty.
pub fn policy(run: &mut Run) -> (r: Result<Document, Halt>)
    ensures
        goes_on(*final(run), *old(run)),
        match r {
            Ok(doc) => play_policy(
                old(run).windows,
                old(run).log@,
                old(run).at as int,
            ) == Outcome::Done(
                table_nodes(doc@),
                final(run).at as int,
            ) && entries_ordered(table_nodes(doc@)),
            Err(h) => play_policy(
                old(run).windows,
                old(run).log@,
                old(run).at as int,
            ) == Outcome::<Entries>::Stop(
                h@,
            ),
        },
{
    let path = policy_path(run)?;
    let text = run.ask_text(Op::ReadText, one(path.as_str()))?;
    Ok(read_or_empty(&text))
}

/// What asking for the keys that the policy trusts comes to.
pub open spec fn play_policy_trusted_keys(
    windows: bool,
    log: Seq<Exchange>,
    at: int,
) -> Outcome<Seq<Seq<char>>> {
    match play_policy(windows, log, at) {
        Outcome::Stop(s) => Outcome::Stop(s),
        Outcome::Done(doc, at) => Outcome::Done(keys_trusted(doc), at),
    }
}

/// The keys that the org-wide policy trusts.
pub fn policy_trusted_keys(run: &mut Run) -> (r: Result<Vec<String>, Halt>)
    ensures
        goes_on(*final(run), *old(run)),
        came_to(
            r,
            *final(run),
            play_policy_trusted_keys(old(run).windows, old(run).log@, old(run).at as int),
        ),
{
    let doc = policy(run)?;
    Ok(trusted_keys(&doc))
}

/// What asking whether the policy declines by default comes to.
pub open spec fn play_policy_default_decline(
    windows: bool,
    log: Seq<Exchange>,
    at: int,
) -> Outcome<bool> {
    match play_policy(windows, log, at) {
        Outcome::Stop(s) => Outcome::Stop(s),
        Outcome::Done(doc, at) => Outcome::Done(declines(doc), at),
    }
}

/// Whether the org-wide policy declines hooks without a trusted signature.
pub fn policy_default_decline(run: &mut Run) -> (r: Result<bool, Halt>)
    ensures
        goes_on(*final(run), *old(run)),
        came_to(
            r,
            *final(run),
            play_policy_default_decline(old(run).windows, old(run).log@, old(run).at as int),
        ),
{
    let doc = policy(run)?;
    Ok(default_decline(&doc))
}

/// What asking for the keys that are trusted in the repository comes to.
pub open spec fn play_local_trusted_keys(log: Seq<Exchange>, at: int) -> Outcome<Seq<Seq<char>>> {
    match play_git_capture(
        log,
        at,
        seq!["config"@, "--local"@, "--get-all"@, "hooks.trustedKey"@],
    ) {
        Outcome::Stop(s) => Outcome::Stop(s),
        Outcome::Done(Some(text), at) => Outcome::Done(lines_of(text), at),
        Outcome::Done(None, at) => Outcome::Done(seq![], at),
    }
}

/// The keys that are trusted in this repository.
pub fn local_trusted_keys(run: &mut Run) -> (r: Result<Vec<String>, Halt>)
    ensures
        goes_on(*final(run), *old(run)),
        came_to(r, *final(run), play_local_trusted_keys(old(run).log@, old(run).at as int)),
{
    let w = owned(vec!["config", "--local", "--get-all", "hooks.trustedKey"]);
    assert(texts(w@) =~= seq!["config"@, "--local"@, "--get-all"@, "hooks.trustedKey"@]);
    match git_capture(run, w)? {
        Some(text) => Ok(lines(text.as_str())),
        None => {
            let none: Vec<String> = Vec::new();
            assert(texts(none@) =~= seq![]);
            Ok(none)
        },
    }
}

/// What asking whether a key is trusted comes to: by the policy, or else in the
/// repository. No key is trusted whose fingerprint is unknown.
pub open spec fn play_key_trusted(
    windows: bool,
    log: Seq<Exchange>,
    at: int,
    fingerprint: Seq<char>,
) -> Outcome<
    bool,
> {
    if fingerprint.len() == 0 {
        Outcome::Done(false, at)
    } else {
        match play_policy_trusted_keys(windows, log, at) {
            Outcome::Stop(s) => Outcome::Stop(s),
            Outcome::Done(keys, at) => if keys.contains(fingerprint) {
                Outcome::Done(true, at)
            } else {
                match play_local_trusted_keys(log, at) {
                    Outcome::Stop(s) => Outcome::Stop(s),
                    Outcome::Done(keys, at) => Outcome::Done(keys.contains(fingerprint), at),
                }
            },
        }
    }
}

/// Is this fingerprint trusted? Org policy first, then the repository.
pub fn key_trusted(run: &mut Run, fingerprint: &str) -> (r: Result<bool, Halt>)
    ensures
        goes_on(*final(run), *old(run)),
        came_to(
            r,
            *final(run),
            play_key_trusted(old(run).windows, old(run).log@, old(run).at as int, fingerprint@),
        ),
{
    if fingerprint.is_empty() {
        return Ok(false);
    }
    let keys = policy_trusted_keys(run)?;
    if listed(&keys, fingerprint) {
        return Ok(true);
    }
    let keys = local_trusted_keys(run)?;
    Ok(listed(&keys, fingerprint))
}

/// How `git` is told to trust a key in the repository.
pub open spec fn key_addition(key: Seq<char>) -> Seq<Seq<char>> {
    seq!["config"@, "--local"@, "--add"@, "hooks.trustedKey"@, key]
}

/// What trusting a key in the repository comes to.
pub open spec fn play_add_local_trusted_key(
    log: Seq<Exchange>,
    at: int,
    fingerprint: Seq<char>,
) -> Outcome<()> {
    match play_local_trusted_keys(log, at) {
        Outcome::Stop(s) => Outcome::Stop(s),
        Outcome::Done(keys, at) => if keys.contains(fingerprint) {
            Outcome::Done((), at)
        } else {
            play_git(log, at, key_addition(fingerprint))
        },
    }
}

/// Tells `git` to trust a key in this repository.
pub fn add_key(run: &mut Run, fingerprint: &str) -> (r: Result<(), Halt>)
    ensures
        goes_on(*final(run), *old(run)),
        came_to(
            r,
            *final(run),
            play_git(old(run).log@, old(run).at as int, key_addition(fingerprint@)),
        ),
{
    let w = owned(vec!["config", "--local", "--add", "hooks.trustedKey", fingerprint]);
    assert(texts(w@) =~= key_addition(fingerprint@));
    git(run, w)
}

/// Trusts a key in this repository, unless it is.
pub fn add_local_trusted_key(run: &mut Run, fingerprint: &str) -> (r: Result<(), Halt>)
    ensures
        goes_on(*final(run), *old(run)),
        came_to(
            r,
            *final(run),
            play_add_local_trusted_key(old(run).log@, old(run).at as int, fingerprint@),
        ),
{
    let keys = local_trusted_keys(run)?;
    if listed(&keys, fingerprint) {
        Ok(())
    } else {
        add_key(run, fingerprint)
    }
}

// ---------------------------------------------------------------------------
// Saying what the signature is.
// ---------------------------------------------------------------------------

/// The line that says what the signature is.
pub open spec fn signature_shown(signed: Signed, trusted: bool) -> Seq<char> {
    match signed {
        Signed::Unsigned => "signature: unsigned"@,
        Signed::Invalid => "signature: present but INVALID"@,
        Signed::Valid(principal, fingerprint) => "signature: signed by "@ + principal + ", key "@
            + fingerprint + " — valid, "@ + (if trusted {
            "trusted"@
        } else {
            "untrusted"@
        }),
    }
}

/// The line that says what the signature is.
pub fn show_signature(trust: &Trust, trusted: bool) -> (r: String)
    ensures
        r@ == signature_shown(trust@, trusted),
{
    match trust {
        Trust::Unsigned => "signature: unsigned".to_string(),
        Trust::Invalid => "signature: present but INVALID".to_string(),
        Trust::Valid { principal, fingerprint } => {
            let mut s = cat2("signature: signed by ", principal.as_str());
            s.append(", key ");
            s.append(fingerprint.as_str());
            s.append(" — valid, ");
            if trusted {
                s.append("trusted");
            } else {
                s.append("untrusted");
            }
            s
        },
    }
}

/// What asking for the line on the signature comes to.
pub open spec fn play_signature_line(
    windows: bool,
    log: Seq<Exchange>,
    at: int,
    root: Seq<char>,
) -> Outcome<
    Seq<char>,
> {
    match play_signature_status(windows, log, at, root) {
        Outcome::Stop(s) => Outcome::Stop(s),
        Outcome::Done(Signed::Valid(principal, fingerprint), at) => match play_key_trusted(
            windows,
            log,
            at,
            fingerprint,
        ) {
            Outcome::Stop(s) => Outcome::Stop(s),
            Outcome::Done(trusted, at) => Outcome::Done(
                signature_shown(Signed::Valid(principal, fingerprint), trusted),
                at,
            ),
        },
        Outcome::Done(signed, at) => Outcome::Done(signature_shown(signed, false), at),
    }
}

/// One human-readable line on the signature, for `status` and `diff`.
pub fn signature_line(run: &mut Run, root: &str) -> (r: Result<String, Halt>)
    ensures
        goes_on(*final(run), *old(run)),
        came_to(
            r,
            *final(run),
            play_signature_line(old(run).windows, old(run).log@, old(run).at as int, root@),
        ),
{
    let trust = signature_status(run, root)?;
    let trusted = match &trust {
        Trust::Valid { fingerprint, .. } => key_trusted(run, fingerprint.as_str())?,
        _ => false,
    };
    Ok(show_signature(&trust, trusted))
}

/// A key whose fingerprint could not be found out is never trusted.
pub proof fn law_unknown_key_untrusted(windows: bool, log: Seq<Exchange>, at: int)
    ensures
        play_key_trusted(windows, log, at, seq![]) == Outcome::Done(false, at),
{
}

} // verus!
