//! The commands that set the program up and that show and record decisions.
use crate::config::{
    add_command, config_shown, hook_names, known_hooks, lemma_hooks_differ, lemma_simple_command,
    render_config, with_command, CONFIG_FILE,
};
use crate::consent::{
    consent_state, decide, decision, play_consent_state, play_read_manifest, play_record_consent,
    read_manifest, record_consent, Decision,
};
use crate::content::{
    consent_hash, githooks_dir_files, or_empty, pair_texts, play_consent_hash,
    play_githooks_dir_files,
};
use crate::document::{
    entries_of, prints_well, read_or_empty, reads_as, simple_document, simple_key, table_nodes,
    toml_parsed, toml_printed, write_document,
};
use crate::git::{
    fail, failing, git, hooks_path, need_root, play_git, play_home_path, play_hooks_path,
    play_need_root, play_repo_root, play_say, repo_root, say, template_dir,
};
use crate::paths::{join_path, path_joined};
use crate::prompt::{
    change_prompt_body, play_change_prompt_body, rel_all, rels, scripts_shown, show_scripts,
};
use crate::text::{begins, cat2, cat3, contains, holds, join, joined, listed, maybe, texts};
use crate::trust::{play_signature_line, signature_line};
use crate::world::{
    asked_done, asked_flag, asked_text, came_to, goes_on, one, owned, two, Exchange, Halt, Op,
    Outcome, Reply, Run, Stop,
};
use vstd::prelude::*;

verus! {

// ---------------------------------------------------------------------------
// Usage.
// ---------------------------------------------------------------------------

/// How the program is used.
pub const USAGE: &'static str = "usage: git hooks <command>

install                  one-time global setup (shims via init.templateDir)
init                     copy shims into an already-cloned repo
uninstall                remove global setup
add <hook> <command>     add a command to this repo's .githooks.toml
accept | decline         record your decision for this repo's hooks
status                   show configured hooks and your decision
diff                     show what changed since you last accepted
sign --key <path> [--signer <principal>]
                         sign the current hooks with an ssh key (maintainer)
trust <fingerprint> [--global]
                         trust a signing key (repo-local, or org policy)
untrust <fingerprint> [--global]   stop trusting a signing key
run <hook> [args...]     (called by the shims)

hooks are inline commands in .githooks.toml, or scripts committed under
.githooks/ (reference them with a command like `.githooks/lint.sh`).
consent is keyed to the content of both; any byte change re-prompts.
a maintainer can `sign` the hooks so cloners who `trust` the key never
get prompted while the signature stays valid.
";

/// How the program ends when it is not used as it should be.
pub open spec fn usage_stop(log: Seq<Exchange>, at: int) -> Stop {
    failing(log, at, USAGE@, 2)
}

/// Says how the program is used, and ends it.
pub fn usage(run: &mut Run) -> (r: Halt)
    ensures
        goes_on(*final(run), *old(run)),
        r@ == usage_stop(old(run).log@, old(run).at as int),
{
    fail(run, USAGE, 2)
}

// ---------------------------------------------------------------------------
// Shims.
// ---------------------------------------------------------------------------

/// A line in every shim, by which a shim is told from a hook of another origin.
pub const SHIM_MARKER: &'static str = "# git-hooks shim";

/// The script that stands in for a hook.
pub open spec fn shim(hook: Seq<char>) -> Seq<char> {
    "#!/bin/sh\n"@ + SHIM_MARKER@ + "\nexec git-hooks run "@ + hook + " \"$@\"\n"@
}

/// The shim script for `hook`. It holds the marker line, so that `init` can
/// recognise it.
pub fn shim_body(hook: &str) -> (r: String)
    ensures
        r@ == shim(hook@),
{
    let mut s = cat3("#!/bin/sh\n", SHIM_MARKER, "\nexec git-hooks run ");
    s.append(hook);
    s.append(" \"$@\"\n");
    s
}

/// What writing the shim of a hook into a directory comes to.
pub open spec fn play_shim(
    windows: bool,
    log: Seq<Exchange>,
    at: int,
    dir: Seq<char>,
    hook: Seq<char>,
) -> Outcome<()> {
    let path = path_joined(windows, dir, hook);
    match asked_done(log, at, Op::WriteText, seq![path, shim(hook)]) {
        Outcome::Stop(s) => Outcome::Stop(s),
        Outcome::Done(_, at) => asked_done(log, at, Op::MakeExecutable, seq![path]),
    }
}

/// What writing the shims from the `i`-th hook on comes to.
pub open spec fn play_shims(
    windows: bool,
    log: Seq<Exchange>,
    at: int,
    dir: Seq<char>,
    i: int,
) -> Outcome<()>
    decreases known_hooks().len() - i,
{
    if i >= known_hooks().len() {
        Outcome::Done((), at)
    } else {
        match play_shim(windows, log, at, dir, known_hooks()[i]) {
            Outcome::Stop(s) => Outcome::Stop(s),
            Outcome::Done(_, at) => play_shims(windows, log, at, dir, i + 1),
        }
    }
}

/// Writes a shim for every hook into a directory.
pub fn write_shims(run: &mut Run, dir: &str) -> (r: Result<(), Halt>)
    ensures
        goes_on(*final(run), *old(run)),
        came_to(
            r,
            *final(run),
            play_shims(old(run).windows, old(run).log@, old(run).at as int, dir@, 0),
        ),
{
    let hooks = hook_names();
    let mut i: usize = 0;
    while i < hooks.len()
        invariant
            goes_on(*run, *old(run)),
            i <= hooks@.len(),
            texts(hooks@) == known_hooks(),
            play_shims(old(run).windows, old(run).log@, old(run).at as int, dir@, 0) == play_shims(
                old(run).windows,
                old(run).log@,
                run.at as int,
                dir@,
                i as int,
            ),
        decreases hooks@.len() - i,
    {
        assert(known_hooks()[i as int] == hooks@[i as int]@);
        let hook = hooks[i].as_str();
        let path = join_path(run.windows, dir, hook);
        run.ask_done(Op::WriteText, two(path.as_str(), shim_body(hook).as_str()))?;
        run.ask_done(Op::MakeExecutable, one(path.as_str()))?;
        i = i + 1;
    }
    assert(texts(hooks@).len() == hooks@.len());
    Ok(())
}

/// Where the template is, below the home directory.
pub open spec fn template_place() -> Seq<char> {
    ".config/git-hooks/template"@
}

/// How `git` is told to copy the template into every new repository.
pub open spec fn template_update(dir: Seq<char>) -> Seq<Seq<char>> {
    seq!["config"@, "--global"@, "init.templateDir"@, dir]
}

/// What the global setup comes to.
pub open spec fn play_install(windows: bool, log: Seq<Exchange>, at: int) -> Outcome<()> {
    match play_home_path(windows, log, at, template_place()) {
        Outcome::Stop(s) => Outcome::Stop(s),
        Outcome::Done(dir, at) => match asked_done(
            log,
            at,
            Op::CreateDirs,
            seq![path_joined(windows, dir, "hooks"@)],
        ) {
            Outcome::Stop(s) => Outcome::Stop(s),
            Outcome::Done(_, at) => match play_shims(
                windows,
                log,
                at,
                path_joined(windows, dir, "hooks"@),
                0,
            ) {
                Outcome::Stop(s) => Outcome::Stop(s),
                Outcome::Done(_, at) => match play_home_path(windows, log, at, template_place()) {
                    Outcome::Stop(s) => Outcome::Stop(s),
                    Outcome::Done(dir, at) => match play_git(log, at, template_update(dir)) {
                        Outcome::Stop(s) => Outcome::Stop(s),
                        Outcome::Done(_, at) => play_say(
                            log,
                            at,
                            "installed. new clones get hook shims automatically.\nexisting repo? run `git hooks init` inside it to copy the shims.\n"@,
                        ),
                    },
                },
            },
        },
    }
}

/// One-time global setup: writes shim hooks into a template directory and points
/// `init.templateDir` at it. Every later `git clone` and `git init` copies the
/// shims.
pub fn install(run: &mut Run) -> (r: Result<(), Halt>)
    ensures
        goes_on(*final(run), *old(run)),
        came_to(r, *final(run), play_install(old(run).windows, old(run).log@, old(run).at as int)),
{
    let dir = join_path(run.windows, template_dir(run)?.as_str(), "hooks");
    run.ask_done(Op::CreateDirs, one(dir.as_str()))?;
    write_shims(run, dir.as_str())?;
    let template = template_dir(run)?;
    let w = owned(vec!["config", "--global", "init.templateDir", template.as_str()]);
    assert(texts(w@) =~= template_update(template@));
    git(run, w)?;
    say(
        run,
        "installed. new clones get hook shims automatically.\nexisting repo? run `git hooks init` inside it to copy the shims.\n",
    )
}

/// What copying one shim comes to: whether there is one to copy, and whether it
/// was copied. A hook that is there already, and is no shim, is left alone.
pub open spec fn play_copy_shim(
    log: Seq<Exchange>,
    at: int,
    src: Seq<char>,
    target: Seq<char>,
) -> Outcome<Option<bool>> {
    match asked_flag(log, at, Op::IsFile, seq![src]) {
        Outcome::Stop(s) => Outcome::Stop(s),
        Outcome::Done(false, at) => Outcome::Done(None, at),
        Outcome::Done(true, at) => match play_foreign(log, at, target) {
            Outcome::Stop(s) => Outcome::Stop(s),
            Outcome::Done(true, at) => Outcome::Done(Some(false), at),
            Outcome::Done(false, at) => match asked_done(log, at, Op::CopyFile, seq![src, target]) {
                Outcome::Stop(s) => Outcome::Stop(s),
                Outcome::Done(_, at) => match asked_done(
                    log,
                    at,
                    Op::MakeExecutable,
                    seq![target],
                ) {
                    Outcome::Stop(s) => Outcome::Stop(s),
                    Outcome::Done(_, at) => Outcome::Done(Some(true), at),
                },
            },
        },
    }
}

/// What asking whether a hook of another origin is at a path comes to.
pub open spec fn play_foreign(log: Seq<Exchange>, at: int, target: Seq<char>) -> Outcome<bool> {
    match asked_flag(log, at, Op::Exists, seq![target]) {
        Outcome::Stop(s) => Outcome::Stop(s),
        Outcome::Done(false, at) => Outcome::Done(false, at),
        Outcome::Done(true, at) => match asked_text(log, at, Op::ReadText, seq![target]) {
            Outcome::Stop(s) => Outcome::Stop(s),
            Outcome::Done(text, at) => Outcome::Done(!holds(or_empty(text), SHIM_MARKER@), at),
        },
    }
}

/// Whether a hook of another origin is at a path: there is a file that does not
/// hold the marker line, or that cannot be read.
pub fn foreign(run: &mut Run, target: &str) -> (r: Result<bool, Halt>)
    ensures
        goes_on(*final(run), *old(run)),
        came_to(r, *final(run), play_foreign(old(run).log@, old(run).at as int, target@)),
{
    if !run.ask_flag(Op::Exists, one(target))? {
        return Ok(false);
    }
    let text = match run.ask_text(Op::ReadText, one(target))? {
        Some(text) => text,
        None => String::new(),
    };
    Ok(!contains(text.as_str(), SHIM_MARKER))
}

/// Copies one shim, unless there is none or a hook of another origin is in its
/// place.
pub fn copy_shim(run: &mut Run, src: &str, target: &str) -> (r: Result<Option<bool>, Halt>)
    ensures
        goes_on(*final(run), *old(run)),
        match r {
            Ok(copied) => play_copy_shim(old(run).log@, old(run).at as int, src@, target@)
                == Outcome::Done(copied, final(run).at as int),
            Err(h) => play_copy_shim(old(run).log@, old(run).at as int, src@, target@) == Outcome::<
                Option<bool>,
            >::Stop(h@),
        },
{
    if !run.ask_flag(Op::IsFile, one(src))? {
        return Ok(None);
    }
    if foreign(run, target)? {
        return Ok(Some(false));
    }
    run.ask_done(Op::CopyFile, two(src, target))?;
    run.ask_done(Op::MakeExecutable, one(target))?;
    Ok(Some(true))
}

/// What copying the shims from the `i`-th hook on comes to: the hooks whose shims
/// were copied, and those that were left alone.
pub open spec fn play_copy_shims(
    windows: bool,
    log: Seq<Exchange>,
    at: int,
    from: Seq<char>,
    to: Seq<char>,
    i: int,
    installed: Seq<Seq<char>>,
    skipped: Seq<Seq<char>>,
) -> Outcome<(Seq<Seq<char>>, Seq<Seq<char>>)>
    decreases known_hooks().len() - i,
{
    if i >= known_hooks().len() {
        Outcome::Done((installed, skipped), at)
    } else {
        let hook = known_hooks()[i];
        match play_copy_shim(
            log,
            at,
            path_joined(windows, from, hook),
            path_joined(windows, to, hook),
        ) {
            Outcome::Stop(s) => Outcome::Stop(s),
            Outcome::Done(None, at) => play_copy_shims(
                windows,
                log,
                at,
                from,
                to,
                i + 1,
                installed,
                skipped,
            ),
            Outcome::Done(Some(true), at) => play_copy_shims(
                windows,
                log,
                at,
                from,
                to,
                i + 1,
                installed.push(hook),
                skipped,
            ),
            Outcome::Done(Some(false), at) => play_copy_shims(
                windows,
                log,
                at,
                from,
                to,
                i + 1,
                installed,
                skipped.push(hook),
            ),
        }
    }
}

/// Copies the shims from one directory to another, and says of which hooks they
/// were copied and which were left alone.
pub fn copy_shims(run: &mut Run, from: &str, to: &str) -> (r: Result<
    (Vec<String>, Vec<String>),
    Halt,
>)
    ensures
        goes_on(*final(run), *old(run)),
        match r {
            Ok((a, b)) => play_copy_shims(
                old(run).windows,
                old(run).log@,
                old(run).at as int,
                from@,
                to@,
                0,
                seq![],
                seq![],
            ) == Outcome::Done((texts(a@), texts(b@)), final(run).at as int),
            Err(h) => play_copy_shims(
                old(run).windows,
                old(run).log@,
                old(run).at as int,
                from@,
                to@,
                0,
                seq![],
                seq![],
            ) == Outcome::<(Seq<Seq<char>>, Seq<Seq<char>>)>::Stop(h@),
        },
{
    let hooks = hook_names();
    let mut installed: Vec<String> = Vec::new();
    let mut skipped: Vec<String> = Vec::new();
    assert(texts(installed@) =~= seq![]);
    assert(texts(skipped@) =~= seq![]);
    let mut i: usize = 0;
    while i < hooks.len()
        invariant
            goes_on(*run, *old(run)),
            i <= hooks@.len(),
            texts(hooks@) == known_hooks(),
            play_copy_shims(
                old(run).windows,
                old(run).log@,
                old(run).at as int,
                from@,
                to@,
                0,
                seq![],
                seq![],
            ) == play_copy_shims(
                old(run).windows,
                old(run).log@,
                run.at as int,
                from@,
                to@,
                i as int,
                texts(installed@),
                texts(skipped@),
            ),
        decreases hooks@.len() - i,
    {
        assert(known_hooks()[i as int] == hooks@[i as int]@);
        let ghost seen = (texts(installed@), texts(skipped@));
        let hook = hooks[i].as_str();
        let src = join_path(run.windows, from, hook);
        let target = join_path(run.windows, to, hook);
        match copy_shim(run, src.as_str(), target.as_str())? {
            None => {},
            Some(true) => {
                installed.push(hooks[i].clone());
                assert(texts(installed@) =~= seen.0.push(hook@));
            },
            Some(false) => {
                skipped.push(hooks[i].clone());
                assert(texts(skipped@) =~= seen.1.push(hook@));
            },
        }
        i = i + 1;
    }
    assert(texts(hooks@).len() == hooks@.len());
    Ok((installed, skipped))
}

/// What is said of the shims that were copied and of the hooks that were not
/// touched.
pub open spec fn init_shown(installed: Seq<Seq<char>>, skipped: Seq<Seq<char>>) -> Seq<char> {
    (if installed.len() == 0 {
        "no shims installed.\n"@
    } else {
        "installed shims: "@ + joined(installed, ", "@) + "\n"@
    }) + (if skipped.len() == 0 {
        seq![]
    } else {
        "skipped (existing non-shim hook, left untouched): "@ + joined(skipped, ", "@) + "\n"@
    })
}

/// What is said of the shims that were copied and of the hooks that were not
/// touched.
pub fn show_init(installed: &Vec<String>, skipped: &Vec<String>) -> (r: String)
    ensures
        r@ == init_shown(texts(installed@), texts(skipped@)),
{
    assert(texts(installed@).len() == installed@.len());
    assert(texts(skipped@).len() == skipped@.len());
    let mut s = if installed.len() == 0 {
        "no shims installed.\n".to_string()
    } else {
        cat3("installed shims: ", join(installed, ", ").as_str(), "\n")
    };
    let rest = if skipped.len() == 0 {
        String::new()
    } else {
        cat3(
            "skipped (existing non-shim hook, left untouched): ",
            join(skipped, ", ").as_str(),
            "\n",
        )
    };
    s.append(rest.as_str());
    s
}

/// What adopting a repository comes to.
pub open spec fn play_init(log: Seq<Exchange>, at: int, windows: bool) -> Outcome<()> {
    match play_need_root(log, at) {
        Outcome::Stop(s) => Outcome::Stop(s),
        Outcome::Done(_, at) => match play_home_path(windows, log, at, template_place()) {
            Outcome::Stop(s) => Outcome::Stop(s),
            Outcome::Done(template, at) => {
                let from = path_joined(windows, template, "hooks"@);
                match asked_flag(log, at, Op::IsDir, seq![from]) {
                    Outcome::Stop(s) => Outcome::Stop(s),
                    Outcome::Done(false, at) => Outcome::Stop(
                        failing(
                            log,
                            at,
                            "no hook template found — run `git hooks install` first.\n"@,
                            1,
                        ),
                    ),
                    Outcome::Done(true, at) => match play_hooks_path(log, at, windows) {
                        Outcome::Stop(s) => Outcome::Stop(s),
                        Outcome::Done(None, at) => Outcome::Stop(
                            failing(log, at, "could not resolve this repo's hooks dir\n"@, 1),
                        ),
                        Outcome::Done(Some(to), at) => match asked_done(
                            log,
                            at,
                            Op::CreateDirs,
                            seq![to],
                        ) {
                            Outcome::Stop(s) => Outcome::Stop(s),
                            Outcome::Done(_, at) => match play_copy_shims(
                                windows,
                                log,
                                at,
                                from,
                                to,
                                0,
                                seq![],
                                seq![],
                            ) {
                                Outcome::Stop(s) => Outcome::Stop(s),
                                Outcome::Done((installed, skipped), at) => play_say(
                                    log,
                                    at,
                                    init_shown(installed, skipped),
                                ),
                            },
                        },
                    },
                }
            },
        },
    }
}

/// Adopts an already cloned repository: copies the shims from the template into
/// its hooks directory. A hook of another origin is never overwritten. Says which
/// shims were installed and which hooks were skipped.
pub fn init(run: &mut Run) -> (r: Result<(), Halt>)
    ensures
        goes_on(*final(run), *old(run)),
        came_to(
            r,
            *final(run),
            play_init(old(run).log@, old(run).at as int, old(run).windows),
        ),
{
    let _ = need_root(run)?;
    let from = join_path(run.windows, template_dir(run)?.as_str(), "hooks");
    if !run.ask_flag(Op::IsDir, one(from.as_str()))? {
        return Err(fail(run, "no hook template found — run `git hooks install` first.\n", 1));
    }
    let to = match hooks_path(run)? {
        Some(to) => to,
        None => return Err(fail(run, "could not resolve this repo's hooks dir\n", 1)),
    };
    run.ask_done(Op::CreateDirs, one(to.as_str()))?;
    let (installed, skipped) = copy_shims(run, from.as_str(), to.as_str())?;
    say(run, show_init(&installed, &skipped).as_str())
}

/// How `git` is told to forget the template.
pub open spec fn template_removal() -> Seq<Seq<char>> {
    seq!["config"@, "--global"@, "--unset"@, "init.templateDir"@]
}

/// What removing the global setup comes to.
pub open spec fn play_uninstall(windows: bool, log: Seq<Exchange>, at: int) -> Outcome<()> {
    match play_git(log, at, template_removal()) {
        Outcome::Stop(s) => Outcome::Stop(s),
        Outcome::Done(_, at) => match play_home_path(windows, log, at, template_place()) {
            Outcome::Stop(s) => Outcome::Stop(s),
            Outcome::Done(dir, at) => match asked_done(log, at, Op::RemoveDirs, seq![dir]) {
                Outcome::Stop(s) => Outcome::Stop(s),
                Outcome::Done(_, at) => play_say(
                    log,
                    at,
                    "uninstalled. already-cloned repos keep their shims; delete .git/hooks/* to remove.\n"@,
                ),
            },
        },
    }
}

/// Removes the global setup. Repositories that were cloned keep their shims.
pub fn uninstall(run: &mut Run) -> (r: Result<(), Halt>)
    ensures
        goes_on(*final(run), *old(run)),
        came_to(
            r,
            *final(run),
            play_uninstall(old(run).windows, old(run).log@, old(run).at as int),
        ),
{
    let w = owned(vec!["config", "--global", "--unset", "init.templateDir"]);
    assert(texts(w@) =~= template_removal());
    git(run, w)?;
    let dir = template_dir(run)?;
    run.ask_done(Op::RemoveDirs, one(dir.as_str()))?;
    say(
        run,
        "uninstalled. already-cloned repos keep their shims; delete .git/hooks/* to remove.\n",
    )
}

// ---------------------------------------------------------------------------
// Adding a command.
// ---------------------------------------------------------------------------

/// What is said of a hook that is not one.
pub open spec fn unknown_hook_notice(hook: Seq<char>) -> Seq<char> {
    "unknown hook '"@ + hook + "'. known: "@ + joined(known_hooks(), ", "@) + "\n"@
}

/// What is said of a command that was added.
pub open spec fn added_notice(hook: Seq<char>, cmd: Seq<char>) -> Seq<char> {
    "added to "@ + CONFIG_FILE@ + ": ["@ + hook + "] "@ + cmd
        + "\ncommit the file so others see it. they will be prompted before it runs for them.\n"@
}

/// The text of a configuration after a command is added, or why none can be: one
/// that is missing or does not parse counts as empty.
pub open spec fn config_with(text: Option<Seq<char>>, hook: Seq<char>, cmd: Seq<char>) -> Result<
    Seq<char>,
    Seq<char>,
> {
    match with_command(entries_of(text), hook, cmd) {
        Err(e) => Err(e),
        Ok(doc) => match toml_printed(doc) {
            Some(s) => Ok(s),
            None => Err("print the configuration"@),
        },
    }
}

/// The text of a configuration after a command is added, or why none can be. Where
/// the configuration holds plain values, the text is read back as the configuration
/// with the command added, whatever the command.
pub fn extend_config(text: &Option<String>, hook: &str, cmd: &str) -> (r: Result<String, String>)
    ensures
        match r {
            Ok(s) => config_with(maybe(*text), hook@, cmd@) == Ok::<Seq<char>, Seq<char>>(s@),
            Err(e) => config_with(maybe(*text), hook@, cmd@) == Err::<Seq<char>, Seq<char>>(e@),
        },
        simple_document(entries_of(maybe(*text))) && simple_key(hook@) ==> (with_command(
            entries_of(maybe(*text)),
            hook@,
            cmd@,
        ) matches Ok(doc) ==> r matches Ok(s) && reads_as(Some(s@), doc)),
{
    let doc = read_or_empty(text);
    proof {
        let before = table_nodes(doc@);
        if simple_document(before) && simple_key(hook@) && with_command(before, hook@, cmd@) is Ok {
            lemma_simple_command(before, hook@, cmd@);
        }
    }
    match add_command(doc, hook, cmd) {
        Err(e) => Err(e),
        Ok(doc) => match write_document(doc) {
            Some(s) => Ok(s),
            None => Err("print the configuration".to_string()),
        },
    }
}

/// What adding a command comes to.
pub open spec fn play_add(
    windows: bool,
    log: Seq<Exchange>,
    at: int,
    hook: Seq<char>,
    cmd: Seq<char>,
) -> Outcome<
    (),
> {
    if !known_hooks().contains(hook) {
        Outcome::Stop(failing(log, at, unknown_hook_notice(hook), 2))
    } else {
        match play_need_root(log, at) {
            Outcome::Stop(s) => Outcome::Stop(s),
            Outcome::Done(root, at) => {
                let path = path_joined(windows, root, CONFIG_FILE@);
                match asked_text(log, at, Op::ReadText, seq![path]) {
                    Outcome::Stop(s) => Outcome::Stop(s),
                    Outcome::Done(text, at) => match config_with(text, hook, cmd) {
                        Err(e) => Outcome::Stop(Stop::Abort(e)),
                        Ok(new) => match asked_done(log, at, Op::WriteText, seq![path, new]) {
                            Outcome::Stop(s) => Outcome::Stop(s),
                            Outcome::Done(_, at) => match play_say(
                                log,
                                at,
                                added_notice(hook, cmd),
                            ) {
                                Outcome::Stop(s) => Outcome::Stop(s),
                                Outcome::Done(_, at) => play_record_consent(windows, log, at, true),
                            },
                        },
                    },
                }
            },
        }
    }
}

/// Appends a command to the committed configuration of the repository. Editing
/// the configuration implies trusting it, so the new content is accepted.
pub fn add(run: &mut Run, hook: &str, cmd: &str) -> (r: Result<(), Halt>)
    ensures
        goes_on(*final(run), *old(run)),
        came_to(
            r,
            *final(run),
            play_add(old(run).windows, old(run).log@, old(run).at as int, hook@, cmd@),
        ),
        r is Ok ==> (play_need_root(old(run).log@, old(run).at as int) matches Outcome::Done(
            root,
            a,
        ) ==> (asked_text(
            old(run).log@,
            a,
            Op::ReadText,
            seq![path_joined(old(run).windows, root, CONFIG_FILE@)],
        ) matches Outcome::Done(text, _) ==> simple_document(entries_of(text)) ==> with_command(
            entries_of(text),
            hook@,
            cmd@,
        ) is Ok && prints_well(with_command(entries_of(text), hook@, cmd@)->Ok_0))),
{
    let hooks = hook_names();
    if !listed(&hooks, hook) {
        let mut notice = cat3("unknown hook '", hook, "'. known: ");
        notice.append(join(&hooks, ", ").as_str());
        notice.append("\n");
        return Err(fail(run, notice.as_str(), 2));
    }
    let root = need_root(run)?;
    let path = join_path(run.windows, root.as_str(), CONFIG_FILE);
    let text = run.ask_text(Op::ReadText, one(path.as_str()))?;
    proof {
        lemma_hooks_differ();
        let i = choose|i: int| 0 <= i < known_hooks().len() && known_hooks()[i] == hook@;
        assert(simple_key(known_hooks()[i]));
    }
    let new = match extend_config(&text, hook, cmd) {
        Ok(new) => new,
        Err(e) => return Err(Halt::Abort(e)),
    };
    run.ask_done(Op::WriteText, two(path.as_str(), new.as_str()))?;
    let mut notice = cat3("added to ", CONFIG_FILE, ": [");
    notice.append(hook);
    notice.append("] ");
    notice.append(cmd);
    notice.append(
        "\ncommit the file so others see it. they will be prompted before it runs for them.\n",
    );
    say(run, notice.as_str())?;
    record_consent(run, true)
}

// ---------------------------------------------------------------------------
// Deciding and looking.
// ---------------------------------------------------------------------------

/// What is said where there is no configuration.
pub open spec fn no_config_notice() -> Seq<char> {
    "no "@ + CONFIG_FILE@ + " in this repository\n"@
}

/// What is said where there is no configuration.
fn no_config_text() -> (r: String)
    ensures
        r@ == no_config_notice(),
{
    cat3("no ", CONFIG_FILE, " in this repository\n")
}

/// What is said of a decision that was recorded.
pub open spec fn consent_notice(accept: bool) -> Seq<char> {
    (if accept {
        "accepted"@
    } else {
        "declined"@
    }) + " hooks from "@ + CONFIG_FILE@ + " for this repository.\n"@
}

/// What deciding comes to.
pub open spec fn play_consent(
    windows: bool,
    log: Seq<Exchange>,
    at: int,
    accept: bool,
) -> Outcome<()> {
    match play_repo_root(log, at) {
        Outcome::Stop(s) => Outcome::Stop(s),
        Outcome::Done(None, at) => Outcome::Stop(failing(log, at, no_config_notice(), 1)),
        Outcome::Done(Some(_), at) => match play_consent_hash(windows, log, at) {
            Outcome::Stop(s) => Outcome::Stop(s),
            Outcome::Done(None, at) => Outcome::Stop(failing(log, at, no_config_notice(), 1)),
            Outcome::Done(Some(_), at) => match play_record_consent(windows, log, at, accept) {
                Outcome::Stop(s) => Outcome::Stop(s),
                Outcome::Done(_, at) => play_say(log, at, consent_notice(accept)),
            },
        },
    }
}

/// Accepts or declines the hooks as they are now.
pub fn consent(run: &mut Run, accept: bool) -> (r: Result<(), Halt>)
    ensures
        goes_on(*final(run), *old(run)),
        came_to(
            r,
            *final(run),
            play_consent(old(run).windows, old(run).log@, old(run).at as int, accept),
        ),
{
    if repo_root(run)?.is_none() {
        return Err(fail(run, no_config_text().as_str(), 1));
    }
    if consent_hash(run)?.is_none() {
        return Err(fail(run, no_config_text().as_str(), 1));
    }
    record_consent(run, accept)?;
    let mut notice = if accept {
        cat3("accepted", " hooks from ", CONFIG_FILE)
    } else {
        cat3("declined", " hooks from ", CONFIG_FILE)
    };
    notice.append(" for this repository.\n");
    say(run, notice.as_str())
}

/// How a decision is shown.
pub open spec fn decision_shown(d: Decision) -> Seq<char> {
    match d {
        Decision::Accepted => "accepted"@,
        Decision::Declined => "declined"@,
        Decision::Changed =>
        "config or .githooks/ changed since your last decision — will re-prompt"@,
        Decision::Open => "no decision yet — will prompt on first hook"@,
    }
}

/// How a decision is shown.
pub fn show_decision(d: Decision) -> (r: String)
    ensures
        r@ == decision_shown(d),
{
    match d {
        Decision::Accepted => "accepted".to_string(),
        Decision::Declined => "declined".to_string(),
        Decision::Changed =>
        "config or .githooks/ changed since your last decision — will re-prompt".to_string(),
        Decision::Open => "no decision yet — will prompt on first hook".to_string(),
    }
}

/// What the status says of the recorded decision and of the hash that a pinned
/// acceptance names.
pub open spec fn state_shown(state: Option<Seq<char>>, hash: Option<Seq<char>>) -> Seq<char> {
    "\nstatus: "@ + decision_shown(decision(state, hash)) + "\n"@ + (match hash {
        Some(h) => "content hash: "@ + h + "\n"@,
        None => seq![],
    })
}

/// What the status says of the recorded decision and of the hash.
pub fn show_state(state: &Option<String>, hash: &Option<String>) -> (r: String)
    ensures
        r@ == state_shown(maybe(*state), maybe(*hash)),
{
    let mut s = cat3("\nstatus: ", show_decision(decide(state, hash)).as_str(), "\n");
    let line = match hash {
        Some(h) => cat3("content hash: ", h.as_str(), "\n"),
        None => String::new(),
    };
    s.append(line.as_str());
    s
}

/// What showing the status comes to.
pub open spec fn play_status(windows: bool, log: Seq<Exchange>, at: int) -> Outcome<()> {
    match play_need_root(log, at) {
        Outcome::Stop(s) => Outcome::Stop(s),
        Outcome::Done(root, at) => match asked_text(
            log,
            at,
            Op::ReadText,
            seq![path_joined(windows, root, CONFIG_FILE@)],
        ) {
            Outcome::Stop(s) => Outcome::Stop(s),
            Outcome::Done(None, at) => play_say(log, at, no_config_notice()),
            Outcome::Done(Some(raw), at) => match play_say(
                log,
                at,
                config_shown(toml_parsed(raw), raw),
            ) {
                Outcome::Stop(s) => Outcome::Stop(s),
                Outcome::Done(_, at) => match play_githooks_dir_files(windows, log, at, root) {
                    Outcome::Stop(s) => Outcome::Stop(s),
                    Outcome::Done(files, at) => match play_say(
                        log,
                        at,
                        scripts_shown(rels(windows, root, files)),
                    ) {
                        Outcome::Stop(s) => Outcome::Stop(s),
                        Outcome::Done(_, at) => play_status_end(windows, log, at, root),
                    },
                },
            },
        },
    }
}

/// What showing the decision and the signature comes to.
pub open spec fn play_status_end(
    windows: bool,
    log: Seq<Exchange>,
    at: int,
    root: Seq<char>,
) -> Outcome<()> {
    match play_consent_state(log, at) {
        Outcome::Stop(s) => Outcome::Stop(s),
        Outcome::Done(state, at) => match play_consent_hash(windows, log, at) {
            Outcome::Stop(s) => Outcome::Stop(s),
            Outcome::Done(hash, at) => match play_say(log, at, state_shown(state, hash)) {
                Outcome::Stop(s) => Outcome::Stop(s),
                Outcome::Done(_, at) => play_show_signature(windows, log, at, root),
            },
        },
    }
}

/// What showing the signature comes to.
pub open spec fn play_show_signature(
    windows: bool,
    log: Seq<Exchange>,
    at: int,
    root: Seq<char>,
) -> Outcome<()> {
    match play_signature_line(windows, log, at, root) {
        Outcome::Stop(s) => Outcome::Stop(s),
        Outcome::Done(line, at) => play_say(log, at, line + "\n"@),
    }
}

/// Says what the signature is.
pub fn say_signature(run: &mut Run, root: &str) -> (r: Result<(), Halt>)
    ensures
        goes_on(*final(run), *old(run)),
        came_to(
            r,
            *final(run),
            play_show_signature(old(run).windows, old(run).log@, old(run).at as int, root@),
        ),
{
    let line = signature_line(run, root)?;
    say(run, cat2(line.as_str(), "\n").as_str())
}

/// Shows the configured hooks, the covered scripts, the decision, the hash of the
/// content and the signature.
pub fn status(run: &mut Run) -> (r: Result<(), Halt>)
    ensures
        goes_on(*final(run), *old(run)),
        came_to(r, *final(run), play_status(old(run).windows, old(run).log@, old(run).at as int)),
{
    let root = need_root(run)?;
    let path = join_path(run.windows, root.as_str(), CONFIG_FILE);
    let raw = match run.ask_text(Op::ReadText, one(path.as_str()))? {
        Some(raw) => raw,
        None => return say(run, no_config_text().as_str()),
    };
    say(run, render_config(raw.as_str()).as_str())?;
    let files = githooks_dir_files(run, root.as_str())?;
    let names = rel_all(run.windows, root.as_str(), &files);
    say(run, show_scripts(&names).as_str())?;
    let state = consent_state(run)?;
    let hash = consent_hash(run)?;
    say(run, show_state(&state, &hash).as_str())?;
    say_signature(run, root.as_str())
}

/// What showing the changes comes to, without the signature.
pub open spec fn play_show_changes(
    windows: bool,
    log: Seq<Exchange>,
    at: int,
    root: Seq<char>,
    manifest: Seq<(Seq<char>, Seq<char>)>,
) -> Outcome<()> {
    if manifest.len() == 0 {
        play_say(log, at, "nothing accepted yet.\n"@)
    } else {
        match play_consent_state(log, at) {
            Outcome::Stop(s) => Outcome::Stop(s),
            Outcome::Done(state, at) => match play_consent_hash(windows, log, at) {
                Outcome::Stop(s) => Outcome::Stop(s),
                Outcome::Done(None, _) => Outcome::Stop(Stop::Abort("config file exists"@)),
                Outcome::Done(Some(hash), at) => if decision(state, Some(hash))
                    == Decision::Accepted {
                    play_say(log, at, "unchanged since your last accept.\n"@)
                } else {
                    match play_change_prompt_body(windows, log, at, root, manifest) {
                        Outcome::Stop(s) => Outcome::Stop(s),
                        Outcome::Done(body, at) => play_say(log, at, body),
                    }
                },
            },
        }
    }
}

/// Says what changed since the last acceptance.
pub fn say_changes(run: &mut Run, root: &str, manifest: &Vec<(String, String)>) -> (r: Result<
    (),
    Halt,
>)
    ensures
        goes_on(*final(run), *old(run)),
        came_to(
            r,
            *final(run),
            play_show_changes(
                old(run).windows,
                old(run).log@,
                old(run).at as int,
                root@,
                pair_texts(manifest@),
            ),
        ),
{
    assert(pair_texts(manifest@).len() == manifest@.len());
    if manifest.len() == 0 {
        return say(run, "nothing accepted yet.\n");
    }
    let state = consent_state(run)?;
    let hash = consent_hash(run)?;
    if hash.is_none() {
        return Err(Halt::Abort("config file exists".to_string()));
    }
    if decide(&state, &hash) == Decision::Accepted {
        return say(run, "unchanged since your last accept.\n");
    }
    let body = change_prompt_body(run, root, manifest)?;
    say(run, body.as_str())
}

/// What showing what changed comes to.
pub open spec fn play_diff(windows: bool, log: Seq<Exchange>, at: int) -> Outcome<()> {
    match play_need_root(log, at) {
        Outcome::Stop(s) => Outcome::Stop(s),
        Outcome::Done(root, at) => match play_consent_hash(windows, log, at) {
            Outcome::Stop(s) => Outcome::Stop(s),
            Outcome::Done(None, at) => play_say(log, at, no_config_notice()),
            Outcome::Done(Some(_), at) => match play_read_manifest(log, at) {
                Outcome::Stop(s) => Outcome::Stop(s),
                Outcome::Done(manifest, at) => match play_show_changes(
                    windows,
                    log,
                    at,
                    root,
                    manifest,
                ) {
                    Outcome::Stop(s) => Outcome::Stop(s),
                    Outcome::Done(_, at) => play_show_signature(windows, log, at, root),
                },
            },
        },
    }
}

/// Shows what changed since the last acceptance, as the prompt would, and the
/// signature.
pub fn diff(run: &mut Run) -> (r: Result<(), Halt>)
    ensures
        goes_on(*final(run), *old(run)),
        came_to(r, *final(run), play_diff(old(run).windows, old(run).log@, old(run).at as int)),
{
    let root = need_root(run)?;
    if consent_hash(run)?.is_none() {
        return say(run, no_config_text().as_str());
    }
    let manifest = read_manifest(run)?;
    say_changes(run, root.as_str(), &manifest)?;
    say_signature(run, root.as_str())
}

// ---------------------------------------------------------------------------
// What adopting a repository leaves alone.
// ---------------------------------------------------------------------------

/// Every shim holds the marker line, so that none is taken for a hook of another
/// origin.
pub proof fn law_shim_is_recognised(hook: Seq<char>)
    ensures
        holds(shim(hook), SHIM_MARKER@),
{
    reveal_strlit("#!/bin/sh\n");
    let s = shim(hook);
    let k = "#!/bin/sh\n"@.len() as int;
    assert(s.skip(k).take(SHIM_MARKER@.len() as int) =~= SHIM_MARKER@);
    assert(begins(s.skip(k), SHIM_MARKER@));
}

/// Whether an exchange shows that no hook of another origin is at a path: there
/// is nothing, or a shim.
pub open spec fn shows_free(e: Exchange, target: Seq<char>) -> bool {
    texts(e.request.words@) == seq![target] && ((e.request.op == Op::Exists && e.reply
        == Reply::Flag(false)) || (e.request.op == Op::ReadText && (e.reply matches Reply::Text(
        Some(text),
    ) && holds(text@, SHIM_MARKER@))))
}

/// Whether the exchanges show that no hook of another origin is at a path.
pub open spec fn is_free(log: Seq<Exchange>, target: Seq<char>) -> bool {
    exists|i: int| 0 <= i < log.len() && #[trigger] shows_free(log[i], target)
}

/// A text that holds something is not empty.
proof fn lemma_marker_in_text(text: Option<Seq<char>>)
    ensures
        holds(or_empty(text), SHIM_MARKER@) ==> text is Some,
{
    reveal_strlit("# git-hooks shim");
    let none = Seq::<char>::empty();
    if text is None && holds(none, SHIM_MARKER@) {
        let i = choose|i: int| 0 <= i <= none.len() && #[trigger] begins(
            none.skip(i),
            SHIM_MARKER@,
        );
        assert(none.skip(i).len() == 0);
    }
}

/// A shim is only copied to where no hook of another origin is.
proof fn lemma_copy_shim_to_free(log: Seq<Exchange>, at: int, src: Seq<char>, target: Seq<char>)
    requires
        0 <= at,
    ensures
        match play_copy_shim(log, at, src, target) {
            Outcome::Stop(
                Stop::Ask(op, words),
            ) => (op == Op::CopyFile ==> words == seq![src, target]
                && is_free(log, target)) && op != Op::WriteText && op != Op::AppendText && op
                != Op::RemoveDirs && (op == Op::MakeExecutable ==> words == seq![target] && is_free(
                log,
                target,
            )),
            Outcome::Done(_, k) => at <= k,
            _ => true,
        },
{
    match asked_flag(log, at, Op::IsFile, seq![src]) {
        Outcome::Done(true, k) => {
            match asked_flag(log, k, Op::Exists, seq![target]) {
                Outcome::Done(false, _) => {
                    assert(shows_free(log[k], target));
                },
                Outcome::Done(true, m) => {
                    match asked_text(log, m, Op::ReadText, seq![target]) {
                        Outcome::Done(text, _) => {
                            lemma_marker_in_text(text);
                            if holds(or_empty(text), SHIM_MARKER@) {
                                assert(shows_free(log[m], target));
                            }
                        },
                        _ => {},
                    }
                },
                _ => {},
            }
        },
        _ => {},
    }
}

/// Shims are only copied to where no hook of another origin is.
proof fn lemma_copy_shims_to_free(
    windows: bool,
    log: Seq<Exchange>,
    at: int,
    from: Seq<char>,
    to: Seq<char>,
    i: int,
    installed: Seq<Seq<char>>,
    skipped: Seq<Seq<char>>,
)
    requires
        0 <= at,
        0 <= i,
    ensures
        play_copy_shims(windows, log, at, from, to, i, installed, skipped) matches Outcome::Stop(
            Stop::Ask(op, words),
        ) ==> (op == Op::CopyFile ==> words.len() == 2 && is_free(log, words[1])) && op
            != Op::WriteText && op != Op::AppendText && op != Op::RemoveDirs && (op
            == Op::MakeExecutable ==> words.len() == 1 && is_free(log, words[0])),
    decreases known_hooks().len() - i,
{
    if i < known_hooks().len() {
        let hook = known_hooks()[i];
        let src = path_joined(windows, from, hook);
        let target = path_joined(windows, to, hook);
        lemma_copy_shim_to_free(log, at, src, target);
        match play_copy_shim(log, at, src, target) {
            Outcome::Stop(_) => {},
            Outcome::Done(None, k) => {
                lemma_copy_shims_to_free(windows, log, k, from, to, i + 1, installed, skipped);
            },
            Outcome::Done(Some(true), k) => {
                lemma_copy_shims_to_free(
                    windows,
                    log,
                    k,
                    from,
                    to,
                    i + 1,
                    installed.push(hook),
                    skipped,
                );
            },
            Outcome::Done(Some(false), k) => {
                lemma_copy_shims_to_free(
                    windows,
                    log,
                    k,
                    from,
                    to,
                    i + 1,
                    installed,
                    skipped.push(hook),
                );
            },
        }
    }
}

/// Adopting a repository never overwrites a hook of another origin, nor changes
/// its mode: what it asks for is never to write, to append or to remove, and a
/// file is only copied to, or made executable at, a path of which an exchange
/// showed that there is nothing or a shim.
pub proof fn law_init_keeps_foreign_hooks(log: Seq<Exchange>, windows: bool)
    ensures
        play_init(log, 0, windows) matches Outcome::Stop(Stop::Ask(op, words)) ==> (op
            == Op::CopyFile ==> words.len() == 2 && is_free(log, words[1])) && op != Op::WriteText
            && op != Op::AppendText && op != Op::RemoveDirs && (op == Op::MakeExecutable
            ==> words.len() == 1 && is_free(log, words[0])),
{
    match play_need_root(log, 0) {
        Outcome::Done(_, a) => {
            match play_home_path(windows, log, a, template_place()) {
                Outcome::Done(template, b) => {
                    let from = path_joined(windows, template, "hooks"@);
                    match asked_flag(log, b, Op::IsDir, seq![from]) {
                        Outcome::Done(true, c) => {
                            match play_hooks_path(log, c, windows) {
                                Outcome::Done(Some(to), d) => {
                                    match asked_done(log, d, Op::CreateDirs, seq![to]) {
                                        Outcome::Done(_, e) => {
                                            lemma_copy_shims_to_free(
                                                windows,
                                                log,
                                                e,
                                                from,
                                                to,
                                                0,
                                                seq![],
                                                seq![],
                                            );
                                        },
                                        _ => {},
                                    }
                                },
                                _ => {},
                            }
                        },
                        _ => {},
                    }
                },
                _ => {},
            }
        },
        _ => {},
    }
}

/// Whether the exchanges show that a shim was written and made executable.
pub open spec fn is_written(
    windows: bool,
    log: Seq<Exchange>,
    dir: Seq<char>,
    hook: Seq<char>,
) -> bool {
    exists|j: int| #[trigger] play_shim(windows, log, j, dir, hook) is Done
}

/// Once the shims are written from the `i`-th hook on, those hooks have theirs.
proof fn lemma_shims_written(windows: bool, log: Seq<Exchange>, at: int, dir: Seq<char>, i: int)
    requires
        0 <= i,
        play_shims(windows, log, at, dir, i) is Done,
    ensures
        forall|j: int|
            i <= j < known_hooks().len() ==> is_written(
                windows,
                log,
                dir,
                #[trigger] known_hooks()[j],
            ),
    decreases known_hooks().len() - i,
{
    if i < known_hooks().len() {
        match play_shim(windows, log, at, dir, known_hooks()[i]) {
            Outcome::Done(_, k) => {
                assert(is_written(windows, log, dir, known_hooks()[i]));
                lemma_shims_written(windows, log, k, dir, i + 1);
            },
            _ => {},
        }
    }
}

/// The global setup is complete once it is through: every hook has its shim.
pub proof fn law_every_hook_has_its_shim(windows: bool, log: Seq<Exchange>, at: int, dir: Seq<char>)
    requires
        play_shims(windows, log, at, dir, 0) is Done,
    ensures
        forall|hook: Seq<char>| #[trigger]
            known_hooks().contains(hook) ==> is_written(windows, log, dir, hook),
{
    lemma_shims_written(windows, log, at, dir, 0);
}

} // verus!
