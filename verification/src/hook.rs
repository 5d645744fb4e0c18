//! Running the commands of a hook, and only with consent to this exact content.
use crate::config::{
    command_for, entries_for, hook_cmd, hook_entries, parse_hook_cmd, prepare, CONFIG_FILE,
};
use crate::consent::{
    consent_state, decide, decision, env_decision, env_verdict, play_consent_state,
    play_record_consent, record_consent, Decision,
};
use crate::content::{consent_hash, play_consent_hash};
use crate::document::{list_nodes, read_document, toml_parsed, Item, Node};
use crate::git::{play_repo_root, play_staged_files, play_tell, repo_root, staged_files, tell};
use crate::paths::{join_path, path_joined};
use crate::prompt::{play_prompt_consent, prompt_consent};
use crate::text::{cat3, texts};
use crate::trust::{
    key_trusted, play_key_trusted, play_policy_default_decline, play_signature_status,
    policy_default_decline, signature_status, Signed, Trust,
};
use crate::world::{
    asked_ran, asked_text, came_to, goes_on, one, succeeded, two, Exchange, Finished, Halt, Op,
    Outcome, Run, Stop,
};
use vstd::prelude::*;

verus! {

// ---------------------------------------------------------------------------
// Consent.
// ---------------------------------------------------------------------------

/// What is said when a trusted signature stands in for the user.
pub open spec fn auto_notice(principal: Seq<char>, fingerprint: Seq<char>) -> Seq<char> {
    "git-hooks: hooks auto-accepted: signed by trusted key "@ + fingerprint + " ("@ + principal
        + ")\n"@
}

/// What is said when the policy declines.
pub open spec fn policy_notice() -> Seq<char> {
    "git-hooks: org policy default is `decline` and no trusted signature — skipping hooks.\n"@
}

/// What accepting on the strength of a trusted signature comes to.
pub open spec fn play_auto_accept(
    windows: bool,
    log: Seq<Exchange>,
    at: int,
    principal: Seq<char>,
    fingerprint: Seq<char>,
) -> Outcome<bool> {
    match play_record_consent(windows, log, at, true) {
        Outcome::Stop(s) => Outcome::Stop(s),
        Outcome::Done(_, at) => match play_tell(log, at, auto_notice(principal, fingerprint)) {
            Outcome::Stop(s) => Outcome::Stop(s),
            Outcome::Done(_, at) => Outcome::Done(true, at),
        },
    }
}

/// What resolving without a trusted signature comes to: by the policy, or else
/// by asking.
pub open spec fn play_policy_or_prompt(
    log: Seq<Exchange>,
    at: int,
    windows: bool,
    root: Seq<char>,
    raw: Seq<char>,
    signed: Signed,
) -> Outcome<bool> {
    match play_policy_default_decline(windows, log, at) {
        Outcome::Stop(s) => Outcome::Stop(s),
        Outcome::Done(true, at) => match play_tell(log, at, policy_notice()) {
            Outcome::Stop(s) => Outcome::Stop(s),
            Outcome::Done(_, at) => Outcome::Done(false, at),
        },
        Outcome::Done(false, at) => play_prompt_consent(log, at, windows, root, raw, signed),
    }
}

/// What resolving consent to new content comes to.
pub open spec fn play_resolve_new_consent(
    log: Seq<Exchange>,
    at: int,
    windows: bool,
    root: Seq<char>,
    raw: Seq<char>,
) -> Outcome<bool> {
    match play_signature_status(windows, log, at, root) {
        Outcome::Stop(s) => Outcome::Stop(s),
        Outcome::Done(Signed::Valid(principal, fingerprint), at) => match play_key_trusted(
            windows,
            log,
            at,
            fingerprint,
        ) {
            Outcome::Stop(s) => Outcome::Stop(s),
            Outcome::Done(true, at) => play_auto_accept(windows, log, at, principal, fingerprint),
            Outcome::Done(false, at) => play_policy_or_prompt(
                log,
                at,
                windows,
                root,
                raw,
                Signed::Valid(principal, fingerprint),
            ),
        },
        Outcome::Done(signed, at) => play_policy_or_prompt(log, at, windows, root, raw, signed),
    }
}

/// No override and no recorded decision for the current content: resolves by
/// signed trust, then by the org-wide policy, then by asking.
///
/// A signature by an already trusted key accepts with no prompt and no terminal.
/// A policy that declines by default then skips. Otherwise the user is asked.
pub fn resolve_new_consent(run: &mut Run, root: &str, raw: &str) -> (r: Result<bool, Halt>)
    ensures
        goes_on(*final(run), *old(run)),
        came_to(
            r,
            *final(run),
            play_resolve_new_consent(
                old(run).log@,
                old(run).at as int,
                old(run).windows,
                root@,
                raw@,
            ),
        ),
{
    let trust = signature_status(run, root)?;
    if let Trust::Valid { principal, fingerprint } = &trust {
        if key_trusted(run, fingerprint.as_str())? {
            record_consent(run, true)?;
            let mut notice = cat3(
                "git-hooks: hooks auto-accepted: signed by trusted key ",
                fingerprint.as_str(),
                " (",
            );
            notice.append(principal.as_str());
            notice.append(")\n");
            tell(run, notice.as_str())?;
            return Ok(true);
        }
    }
    if policy_default_decline(run)? {
        tell(
            run,
            "git-hooks: org policy default is `decline` and no trusted signature — skipping hooks.\n",
        )?;
        return Ok(false);
    }
    prompt_consent(run, root, raw, &trust)
}

/// What going by a recorded acceptance comes to. Where the policy declines by
/// default it takes a trusted signature as well.
pub open spec fn play_accepted_before(
    windows: bool,
    log: Seq<Exchange>,
    at: int,
    root: Seq<char>,
) -> Outcome<
    bool,
> {
    match play_policy_default_decline(windows, log, at) {
        Outcome::Stop(s) => Outcome::Stop(s),
        Outcome::Done(false, at) => Outcome::Done(true, at),
        Outcome::Done(true, at) => match play_trusted_signature(windows, log, at, root) {
            Outcome::Stop(s) => Outcome::Stop(s),
            Outcome::Done(true, at) => Outcome::Done(true, at),
            Outcome::Done(false, at) => match play_tell(log, at, policy_notice()) {
                Outcome::Stop(s) => Outcome::Stop(s),
                Outcome::Done(_, at) => Outcome::Done(false, at),
            },
        },
    }
}

/// What asking whether the hooks are signed by a trusted key comes to.
pub open spec fn play_trusted_signature(
    windows: bool,
    log: Seq<Exchange>,
    at: int,
    root: Seq<char>,
) -> Outcome<
    bool,
> {
    match play_signature_status(windows, log, at, root) {
        Outcome::Stop(s) => Outcome::Stop(s),
        Outcome::Done(Signed::Valid(_, fingerprint), at) => play_key_trusted(
            windows,
            log,
            at,
            fingerprint,
        ),
        Outcome::Done(_, at) => Outcome::Done(false, at),
    }
}

/// Whether the hooks are signed by a trusted key.
pub fn trusted_signature(run: &mut Run, root: &str) -> (r: Result<bool, Halt>)
    ensures
        goes_on(*final(run), *old(run)),
        came_to(
            r,
            *final(run),
            play_trusted_signature(old(run).windows, old(run).log@, old(run).at as int, root@),
        ),
{
    match signature_status(run, root)? {
        Trust::Valid { fingerprint, .. } => key_trusted(run, fingerprint.as_str()),
        _ => Ok(false),
    }
}

/// Whether hooks that were accepted before may run. On a machine whose policy
/// declines by default only those do that a trusted key has signed.
pub fn accepted_before(run: &mut Run, root: &str) -> (r: Result<bool, Halt>)
    ensures
        goes_on(*final(run), *old(run)),
        came_to(
            r,
            *final(run),
            play_accepted_before(old(run).windows, old(run).log@, old(run).at as int, root@),
        ),
{
    if !policy_default_decline(run)? {
        return Ok(true);
    }
    if trusted_signature(run, root)? {
        return Ok(true);
    }
    tell(
        run,
        "git-hooks: org policy default is `decline` and no trusted signature — skipping hooks.\n",
    )?;
    Ok(false)
}

/// What asking for consent to content with the given hash comes to.
pub open spec fn play_may_run(
    log: Seq<Exchange>,
    at: int,
    windows: bool,
    root: Seq<char>,
    raw: Seq<char>,
    hash: Seq<char>,
) -> Outcome<bool> {
    match asked_text(log, at, Op::EnvVar, seq!["GIT_HOOKS_CONSENT"@]) {
        Outcome::Stop(s) => Outcome::Stop(s),
        Outcome::Done(var, at) => match env_decision(var, hash) {
            Some(b) => Outcome::Done(b, at),
            None => match play_consent_state(log, at) {
                Outcome::Stop(s) => Outcome::Stop(s),
                Outcome::Done(state, at) => match decision(state, Some(hash)) {
                    Decision::Accepted => play_accepted_before(windows, log, at, root),
                    Decision::Declined => Outcome::Done(false, at),
                    _ => play_resolve_new_consent(log, at, windows, root, raw),
                },
            },
        },
    }
}

/// Whether hooks with the given hash may run. The environment variable
/// `GIT_HOOKS_CONSENT` wins over the recorded decision and is never recorded; the
/// recorded decision holds for this very content, as far as the policy allows;
/// anything else is resolved.
pub fn may_run(run: &mut Run, root: &str, raw: &str, hash: &str) -> (r: Result<bool, Halt>)
    ensures
        goes_on(*final(run), *old(run)),
        came_to(
            r,
            *final(run),
            play_may_run(
                old(run).log@,
                old(run).at as int,
                old(run).windows,
                root@,
                raw@,
                hash@,
            ),
        ),
{
    let var = run.ask_text(Op::EnvVar, one("GIT_HOOKS_CONSENT"))?;
    if let Some(b) = env_verdict(&var, hash) {
        return Ok(b);
    }
    let state = consent_state(run)?;
    let current = Some(hash.to_owned());
    match decide(&state, &current) {
        Decision::Accepted => accepted_before(run, root),
        Decision::Declined => Ok(false),
        _ => resolve_new_consent(run, root, raw),
    }
}

// ---------------------------------------------------------------------------
// Running the commands.
// ---------------------------------------------------------------------------

/// A line about a command of a hook, for standard error.
pub open spec fn hook_notice(hook: Seq<char>, what: Seq<char>, command: Seq<char>) -> Seq<char> {
    "git-hooks["@ + hook + "]: "@ + what + command + "\n"@
}

/// A line about a command of a hook, for standard error.
pub fn notice_text(hook: &str, what: &str, command: &str) -> (r: String)
    ensures
        r@ == hook_notice(hook@, what@, command@),
{
    let mut s = cat3("git-hooks[", hook, "]: ");
    s.append(what);
    s.append(command);
    s.append("\n");
    s
}

/// The exit code that a failed process stands for.
pub open spec fn failure_code(f: Finished) -> i32 {
    match f.code {
        Some(c) => c,
        None => 1,
    }
}

/// What running one command comes to: nothing when it succeeded, or the exit code
/// that the hook ends with.
pub open spec fn play_command(
    log: Seq<Exchange>,
    at: int,
    root: Seq<char>,
    hook: Seq<char>,
    args: Seq<Seq<char>>,
    text: Seq<char>,
    command: Seq<char>,
) -> Outcome<i32> {
    match play_tell(log, at, hook_notice(hook, ""@, text)) {
        Outcome::Stop(s) => Outcome::Stop(s),
        Outcome::Done(_, at) => match asked_ran(log, at, Op::Shell, seq![root, command] + args) {
            Outcome::Stop(s) => Outcome::Stop(s),
            Outcome::Done(None, _) => Outcome::Stop(Stop::Abort("spawn sh"@)),
            Outcome::Done(Some(f), at) => if succeeded(f) {
                Outcome::Done(0, at)
            } else {
                match play_tell(log, at, hook_notice(hook, "FAILED: "@, text)) {
                    Outcome::Stop(s) => Outcome::Stop(s),
                    Outcome::Done(_, at) => Outcome::Done(failure_code(f), at),
                }
            },
        },
    }
}

/// Runs one command: its text is announced, and `sh -c` gets it with the
/// arguments of the hook. The result is zero when it succeeded.
pub fn run_command(
    run: &mut Run,
    root: &str,
    hook: &str,
    args: &Vec<String>,
    text: &str,
    command: &str,
) -> (r: Result<i32, Halt>)
    ensures
        goes_on(*final(run), *old(run)),
        came_to(
            r,
            *final(run),
            play_command(
                old(run).log@,
                old(run).at as int,
                root@,
                hook@,
                texts(args@),
                text@,
                command@,
            ),
        ),
{
    tell(run, notice_text(hook, "", text).as_str())?;
    let mut w = two(root, command);
    let mut i: usize = 0;
    assert(texts(args@).take(0) =~= seq![]);
    assert(texts(w@) =~= seq![root@, command@] + texts(args@).take(0));
    while i < args.len()
        invariant
            i <= args@.len(),
            texts(w@) == seq![root@, command@] + texts(args@).take(i as int),
        decreases args@.len() - i,
    {
        let ghost seen = texts(w@);
        w.push(args[i].clone());
        assert(texts(w@) =~= seen.push(args@[i as int]@));
        assert(texts(args@).take(i + 1) =~= texts(args@).take(i as int).push(args@[i as int]@));
        assert(texts(w@) =~= seq![root@, command@] + texts(args@).take(i + 1));
        i = i + 1;
    }
    assert(texts(args@).take(i as int) =~= texts(args@));
    match run.ask_ran(Op::Shell, w)? {
        None => Err(Halt::Abort("spawn sh".to_string())),
        Some(f) => if f.success() {
            Ok(0)
        } else {
            tell(run, notice_text(hook, "FAILED: ", text).as_str())?;
            match f.code {
                Some(c) => Ok(c),
                None => Ok(1),
            }
        },
    }
}

/// What running the commands from the `i`-th on comes to: the exit code of the
/// first one that fails.
pub open spec fn play_commands(
    log: Seq<Exchange>,
    at: int,
    root: Seq<char>,
    hook: Seq<char>,
    args: Seq<Seq<char>>,
    list: Seq<Node>,
    staged: Seq<Seq<char>>,
    i: int,
) -> Outcome<i32>
    decreases list.len() - i,
{
    if i >= list.len() {
        Outcome::Done(0, at)
    } else {
        match hook_cmd(list[i]) {
            None => play_commands(log, at, root, hook, args, list, staged, i + 1),
            Some(c) => match command_for(c, staged) {
                None => match play_tell(
                    log,
                    at,
                    hook_notice(hook, "skipped (no matching staged files): "@, c.run),
                ) {
                    Outcome::Stop(s) => Outcome::Stop(s),
                    Outcome::Done(_, at) => play_commands(
                        log,
                        at,
                        root,
                        hook,
                        args,
                        list,
                        staged,
                        i + 1,
                    ),
                },
                Some(command) => match play_command(log, at, root, hook, args, c.run, command) {
                    Outcome::Stop(s) => Outcome::Stop(s),
                    Outcome::Done(code, at) => if code == 0 {
                        play_commands(log, at, root, hook, args, list, staged, i + 1)
                    } else {
                        Outcome::Done(code, at)
                    },
                },
            },
        }
    }
}

/// Runs the commands of a hook in order, up to the first that fails, and gives
/// the exit code of that one, or zero. An entry that is no command is passed
/// over; one whose filter matches no staged file is skipped, which is said.
pub fn run_commands(
    run: &mut Run,
    root: &str,
    hook: &str,
    args: &Vec<String>,
    list: &Vec<Item>,
    staged: &Vec<String>,
) -> (r: Result<i32, Halt>)
    ensures
        goes_on(*final(run), *old(run)),
        came_to(
            r,
            *final(run),
            play_commands(
                old(run).log@,
                old(run).at as int,
                root@,
                hook@,
                texts(args@),
                list_nodes(list@),
                texts(staged@),
                0,
            ),
        ),
{
    let ghost all = list_nodes(list@);
    let ghost files = texts(staged@);
    let ghost rest = texts(args@);
    let mut i: usize = 0;
    while i < list.len()
        invariant
            goes_on(*run, *old(run)),
            i <= list@.len(),
            all == list_nodes(list@),
            files == texts(staged@),
            rest == texts(args@),
            play_commands(old(run).log@, old(run).at as int, root@, hook@, rest, all, files, 0)
                == play_commands(
                old(run).log@,
                run.at as int,
                root@,
                hook@,
                rest,
                all,
                files,
                i as int,
            ),
        decreases list@.len() - i,
    {
        assert(all[i as int] == list@[i as int]@);
        if let Some(c) = parse_hook_cmd(&list[i]) {
            match prepare(&c, staged) {
                None => {
                    let notice = notice_text(
                        hook,
                        "skipped (no matching staged files): ",
                        c.run.as_str(),
                    );
                    tell(run, notice.as_str())?;
                },
                Some(command) => {
                    let code = run_command(
                        run,
                        root,
                        hook,
                        args,
                        c.run.as_str(),
                        command.as_str(),
                    )?;
                    if code != 0 {
                        return Ok(code);
                    }
                },
            }
        }
        i = i + 1;
    }
    Ok(0)
}

/// What is said of a configuration that does not parse.
pub open spec fn bad_config_notice(error: Seq<char>) -> Seq<char> {
    "git-hooks: bad "@ + CONFIG_FILE@ + ": "@ + error + "\n"@
}

/// What running the hook that a configuration defines comes to.
pub open spec fn play_configured(
    log: Seq<Exchange>,
    at: int,
    root: Seq<char>,
    raw: Seq<char>,
    hook: Seq<char>,
    args: Seq<Seq<char>>,
) -> Outcome<i32> {
    match toml_parsed(raw) {
        Err(e) => match play_tell(log, at, bad_config_notice(e)) {
            Outcome::Stop(s) => Outcome::Stop(s),
            Outcome::Done(_, at) => Outcome::Done(1, at),
        },
        Ok(doc) => match entries_for(doc, hook) {
            None => Outcome::Done(0, at),
            Some(list) => match play_staged_files(log, at, root) {
                Outcome::Stop(s) => Outcome::Stop(s),
                Outcome::Done(staged, at) => play_commands(
                    log,
                    at,
                    root,
                    hook,
                    args,
                    list,
                    staged,
                    0,
                ),
            },
        },
    }
}

/// Runs the commands that a configuration has for a hook.
pub fn run_configured(
    run: &mut Run,
    root: &str,
    raw: &str,
    hook: &str,
    args: &Vec<String>,
) -> (r: Result<i32, Halt>)
    ensures
        goes_on(*final(run), *old(run)),
        came_to(
            r,
            *final(run),
            play_configured(
                old(run).log@,
                old(run).at as int,
                root@,
                raw@,
                hook@,
                texts(args@),
            ),
        ),
{
    let doc = match read_document(raw) {
        Ok(doc) => doc,
        Err(e) => {
            let mut notice = cat3("git-hooks: bad ", CONFIG_FILE, ": ");
            notice.append(e.as_str());
            notice.append("\n");
            tell(run, notice.as_str())?;
            return Ok(1);
        },
    };
    match hook_entries(&doc, hook) {
        None => Ok(0),
        Some(list) => {
            let staged = staged_files(run, root)?;
            run_commands(run, root, hook, args, list, &staged)
        },
    }
}

/// What a hook comes to: its exit code.
pub open spec fn play_run_hook(
    log: Seq<Exchange>,
    at: int,
    windows: bool,
    hook: Seq<char>,
    args: Seq<Seq<char>>,
) -> Outcome<i32> {
    match play_repo_root(log, at) {
        Outcome::Stop(s) => Outcome::Stop(s),
        Outcome::Done(None, at) => Outcome::Done(0, at),
        Outcome::Done(Some(root), at) => match asked_text(
            log,
            at,
            Op::ReadText,
            seq![path_joined(windows, root, CONFIG_FILE@)],
        ) {
            Outcome::Stop(s) => Outcome::Stop(s),
            Outcome::Done(None, at) => Outcome::Done(0, at),
            Outcome::Done(Some(raw), at) => match play_consent_hash(windows, log, at) {
                Outcome::Stop(s) => Outcome::Stop(s),
                Outcome::Done(None, _) => Outcome::Stop(Stop::Abort("config file exists"@)),
                Outcome::Done(Some(hash), at) => match play_may_run(
                    log,
                    at,
                    windows,
                    root,
                    raw,
                    hash,
                ) {
                    Outcome::Stop(s) => Outcome::Stop(s),
                    Outcome::Done(false, at) => Outcome::Done(0, at),
                    Outcome::Done(true, at) => play_configured(log, at, root, raw, hook, args),
                },
            },
        },
    }
}

/// Called by the shims. Runs the commands for `hook` from the committed
/// configuration, but only after the user has accepted this exact version of the
/// hooks. Outside a repository, and in one that has no configuration, it does
/// nothing.
pub fn run_hook(run: &mut Run, hook: &str, hook_args: &Vec<String>) -> (r: Result<i32, Halt>)
    ensures
        goes_on(*final(run), *old(run)),
        came_to(
            r,
            *final(run),
            play_run_hook(
                old(run).log@,
                old(run).at as int,
                old(run).windows,
                hook@,
                texts(hook_args@),
            ),
        ),
{
    let root = match repo_root(run)? {
        Some(root) => root,
        None => return Ok(0),
    };
    let path = join_path(run.windows, root.as_str(), CONFIG_FILE);
    let raw = match run.ask_text(Op::ReadText, one(path.as_str()))? {
        Some(raw) => raw,
        None => return Ok(0),
    };
    let hash = match consent_hash(run)? {
        Some(hash) => hash,
        None => return Err(Halt::Abort("config file exists".to_string())),
    };
    if !may_run(run, root.as_str(), raw.as_str(), hash.as_str())? {
        return Ok(0);
    }
    run_configured(run, root.as_str(), raw.as_str(), hook, hook_args)
}

/// The first command that fails ends the hook with its exit code: no later one is
/// run. A command that was ended by a signal counts as exit code one.
pub proof fn law_failure_ends_the_hook(
    log: Seq<Exchange>,
    at: int,
    root: Seq<char>,
    hook: Seq<char>,
    args: Seq<Seq<char>>,
    list: Seq<Node>,
    staged: Seq<Seq<char>>,
    i: int,
    f: Finished,
    a: int,
    b: int,
    c: int,
)
    requires
        0 <= i < list.len(),
        hook_cmd(list[i]) is Some,
        command_for(hook_cmd(list[i])->Some_0, staged) is Some,
        play_tell(log, at, hook_notice(hook, ""@, hook_cmd(list[i])->Some_0.run)) == Outcome::Done(
            (),
            a,
        ),
        asked_ran(
            log,
            a,
            Op::Shell,
            seq![root, command_for(hook_cmd(list[i])->Some_0, staged)->Some_0] + args,
        ) == Outcome::Done(Some(f), b),
        !succeeded(f),
        play_tell(log, b, hook_notice(hook, "FAILED: "@, hook_cmd(list[i])->Some_0.run))
            == Outcome::Done((), c),
    ensures
        failure_code(f) != 0,
        play_commands(log, at, root, hook, args, list, staged, i) == Outcome::Done(
            failure_code(f),
            c,
        ),
{
}

} // verus!
