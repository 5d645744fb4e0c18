//! What running a hook does: every command that is due is asked for, in order, up to the
//! first that fails.
use crate::config::{command_for, entries_for, hook_cmd};
use crate::document::{toml_parsed, Node};
use crate::git::play_staged_files;
use crate::hook::{hook_notice, play_commands, play_configured};
use crate::text::texts;
use crate::tracing::{well_answered, words_asked};
use crate::world::{Exchange, Op, Outcome, Reply, Stop};
use vstd::prelude::*;

verus! {

/// The exit codes of the commands that a shell ran, in order; `None` where a signal ended
/// one.
pub open spec fn exit_codes(log: Seq<Exchange>, from: int, to: int) -> Seq<Option<i32>>
    decreases to - from,
{
    if from >= to {
        seq![]
    } else if log[from].request.op == Op::Shell {
        seq![
            match log[from].reply {
                Reply::Ran(Ok(f)) => f.code,
                _ => None,
            },
        ] + exit_codes(log, from + 1, to)
    } else {
        exit_codes(log, from + 1, to)
    }
}

/// The commands of a list that are due for the staged files: all but those whose filter
/// matches none.
pub open spec fn due(list: Seq<Node>, staged: Seq<Seq<char>>) -> Seq<Seq<char>>
    decreases list.len(),
{
    if list.len() == 0 {
        seq![]
    } else {
        (match hook_cmd(list[0]) {
            Some(c) => match command_for(c, staged) {
                Some(command) => seq![command],
                None => seq![],
            },
            None => seq![],
        }) + due(list.drop_first(), staged)
    }
}

/// What is said of the commands of a list when all that are due succeed: each is named,
/// and those that are skipped are said to be.
pub open spec fn notes(hook: Seq<char>, list: Seq<Node>, staged: Seq<Seq<char>>) -> Seq<
    Seq<Seq<char>>,
>
    decreases list.len(),
{
    if list.len() == 0 {
        seq![]
    } else {
        (match hook_cmd(list[0]) {
            Some(c) => match command_for(c, staged) {
                Some(_) => seq![seq!["git-hooks["@ + hook + "]: "@ + c.run + "\n"@]],
                None => seq![
                    seq![
                        "git-hooks["@ + hook + "]: skipped (no matching staged files): "@ + c.run
                            + "\n"@,
                    ],
                ],
            },
            None => seq![],
        }) + notes(hook, list.drop_first(), staged)
    }
}

/// What the notices are made of.
proof fn lemma_notices(hook: Seq<char>, run: Seq<char>)
    ensures
        hook_notice(hook, ""@, run) == "git-hooks["@ + hook + "]: "@ + run + "\n"@,
        hook_notice(hook, "skipped (no matching staged files): "@, run) == "git-hooks["@ + hook
            + "]: skipped (no matching staged files): "@ + run + "\n"@,
        hook_notice(hook, "FAILED: "@, run) == "git-hooks["@ + hook + "]: FAILED: "@ + run + "\n"@,
{
    reveal_strlit("");
    reveal_strlit("]: ");
    reveal_strlit("FAILED: ");
    reveal_strlit("]: FAILED: ");
    reveal_strlit("skipped (no matching staged files): ");
    reveal_strlit("]: skipped (no matching staged files): ");
    assert(""@ =~= seq![]);
    assert("]: "@ + "FAILED: "@ =~= "]: FAILED: "@);
    assert("]: "@ + "skipped (no matching staged files): "@
        =~= "]: skipped (no matching staged files): "@);
    assert(hook_notice(hook, ""@, run) =~= "git-hooks["@ + hook + "]: "@ + run + "\n"@);
    assert(hook_notice(hook, "skipped (no matching staged files): "@, run) =~= "git-hooks["@ + hook
        + ("]: "@ + "skipped (no matching staged files): "@) + run + "\n"@);
    assert(hook_notice(hook, "FAILED: "@, run) =~= "git-hooks["@ + hook + ("]: "@ + "FAILED: "@)
        + run + "\n"@);
}

/// A command whose filter matches no staged file concerns itself alone: once it is said to
/// be skipped, the hook comes to what it comes to from the next entry on.
pub proof fn law_skipping_goes_on(
    log: Seq<Exchange>,
    at: int,
    root: Seq<char>,
    hook: Seq<char>,
    args: Seq<Seq<char>>,
    list: Seq<Node>,
    staged: Seq<Seq<char>>,
    i: int,
)
    requires
        0 <= i < list.len(),
        0 <= at < log.len(),
        hook_cmd(list[i]) is Some,
        command_for(hook_cmd(list[i])->Some_0, staged) is None,
        log[at].request.op == Op::Report,
        texts(log[at].request.words@) == seq![
            "git-hooks["@ + hook + "]: skipped (no matching staged files): "@
                + hook_cmd(list[i])->Some_0.run + "\n"@,
        ],
        log[at].reply == Reply::Done,
    ensures
        play_commands(log, at, root, hook, args, list, staged, i) == play_commands(
            log,
            at + 1,
            root,
            hook,
            args,
            list,
            staged,
            i + 1,
        ),
{
    lemma_notices(hook, hook_cmd(list[i])->Some_0.run);
}

/// An entry that is no command is passed over.
pub proof fn law_no_command_is_passed_over(
    log: Seq<Exchange>,
    at: int,
    root: Seq<char>,
    hook: Seq<char>,
    args: Seq<Seq<char>>,
    list: Seq<Node>,
    staged: Seq<Seq<char>>,
    i: int,
)
    requires
        0 <= i < list.len(),
        hook_cmd(list[i]) is None,
    ensures
        play_commands(log, at, root, hook, args, list, staged, i) == play_commands(
            log,
            at,
            root,
            hook,
            args,
            list,
            staged,
            i + 1,
        ),
{
}

/// What is due, said and done from one entry on.
proof fn lemma_runs(
    log: Seq<Exchange>,
    at: int,
    root: Seq<char>,
    hook: Seq<char>,
    args: Seq<Seq<char>>,
    list: Seq<Node>,
    staged: Seq<Seq<char>>,
    i: int,
    code: i32,
    to: int,
)
    requires
        0 <= at <= log.len(),
        0 <= i <= list.len(),
        play_commands(log, at, root, hook, args, list, staged, i) == Outcome::Done(code, to),
    ensures
        at <= to <= log.len(),
        ({
            let asked = words_asked(log, Op::Shell, at, to);
            let codes = exit_codes(log, at, to);
            let all = due(list.skip(i), staged);
            &&& asked.len() == codes.len() <= all.len()
            &&& forall|j: int|
                0 <= j < asked.len() ==> #[trigger] asked[j] == seq![root, all[j]] + args
            &&& forall|j: int| 0 <= j < codes.len() - 1 ==> #[trigger] codes[j] == Some(0i32)
            &&& code == 0 ==> asked.len() == all.len() && (codes.len() > 0 ==> codes.last() == Some(
                0i32,
            )) && words_asked(log, Op::Report, at, to) == notes(hook, list.skip(i), staged)
            &&& code != 0 ==> codes.len() > 0 && codes.last() != Some(0i32) && code == (
            match codes.last() {
                Some(c) => c,
                None => 1i32,
            })
        }),
    decreases list.len() - i,
{
    let rest = list.skip(i);
    let all = due(rest, staged);
    if i >= list.len() {
        assert(rest =~= seq![]);
    } else {
        assert(rest[0] == list[i]);
        assert(rest.drop_first() =~= list.skip(i + 1));
        let later = due(list.skip(i + 1), staged);
        match hook_cmd(list[i]) {
            None => {
                lemma_runs(log, at, root, hook, args, list, staged, i + 1, code, to);
                assert(all =~= later);
                assert(notes(hook, rest, staged) =~= notes(hook, list.skip(i + 1), staged));
            },
            Some(c) => {
                lemma_notices(hook, c.run);
                match command_for(c, staged) {
                    None => {
                        lemma_runs(log, at + 1, root, hook, args, list, staged, i + 1, code, to);
                        assert(all =~= later);
                    },
                    Some(command) => {
                        assert(all =~= seq![command] + later);
                        let f = log[at + 1].reply->Ran_0->Ok_0;
                        assert(log[at].request.op == Op::Report);
                        assert(log[at + 1].request.op == Op::Shell);
                        if f.code == Some(0i32) {
                            let next = i + 1;
                            lemma_runs(log, at + 2, root, hook, args, list, staged, next, code, to);
                            let asked = words_asked(log, Op::Shell, at, to);
                            let more = words_asked(log, Op::Shell, at + 2, to);
                            let codes = exit_codes(log, at, to);
                            let after = exit_codes(log, at + 2, to);
                            assert(words_asked(log, Op::Shell, at + 1, to) == asked);
                            assert(exit_codes(log, at + 1, to) == codes);
                            assert(asked =~= seq![seq![root, command] + args] + more);
                            assert(codes =~= seq![Some(0i32)] + after);
                            assert forall|j: int| 0 <= j < asked.len() implies #[trigger] asked[j]
                                == seq![root, all[j]] + args by {
                                if j > 0 {
                                    assert(asked[j] == more[j - 1]);
                                    assert(all[j] == later[j - 1]);
                                }
                            }
                            assert forall|j: int| 0 <= j < codes.len() - 1 implies
                                #[trigger] codes[j] == Some(0i32) by {
                                if j > 0 {
                                    assert(codes[j] == after[j - 1]);
                                }
                            }
                            if after.len() > 0 {
                                assert(codes.last() == after.last());
                            }
                            assert(words_asked(log, Op::Report, at + 1, to) == words_asked(
                                log,
                                Op::Report,
                                at + 2,
                                to,
                            ));
                        } else {
                            assert(to == at + 3);
                            assert(log[at + 2].request.op == Op::Report);
                            reveal_with_fuel(words_asked, 5);
                            reveal_with_fuel(exit_codes, 5);
                            assert(words_asked(log, Op::Shell, at, to) =~= seq![
                                seq![root, command] + args,
                            ]);
                            assert(exit_codes(log, at, to) =~= seq![f.code]);
                        }
                    },
                }
            },
        }
    }
}

/// Running the commands of a hook asks the shell for those that are due, in order, in the
/// repository and with the arguments of the hook. Zero comes out exactly when every one of
/// them was asked for and succeeded, and then each was named and each that was skipped was
/// said to be. Otherwise the last one that was asked for failed, and what comes out is its
/// exit code, or one where a signal ended it; all before it succeeded.
pub proof fn law_hook_runs_what_is_due(
    log: Seq<Exchange>,
    at: int,
    root: Seq<char>,
    hook: Seq<char>,
    args: Seq<Seq<char>>,
    list: Seq<Node>,
    staged: Seq<Seq<char>>,
    code: i32,
    to: int,
)
    requires
        0 <= at <= log.len(),
        play_commands(log, at, root, hook, args, list, staged, 0) == Outcome::Done(code, to),
    ensures
        at <= to <= log.len(),
        ({
            let asked = words_asked(log, Op::Shell, at, to);
            let codes = exit_codes(log, at, to);
            let all = due(list, staged);
            &&& asked.len() == codes.len() <= all.len()
            &&& forall|j: int|
                0 <= j < asked.len() ==> #[trigger] asked[j] == seq![root, all[j]] + args
            &&& forall|j: int| 0 <= j < codes.len() - 1 ==> #[trigger] codes[j] == Some(0i32)
            &&& code == 0 ==> asked.len() == all.len() && (codes.len() > 0 ==> codes.last() == Some(
                0i32,
            )) && words_asked(log, Op::Report, at, to) == notes(hook, list, staged)
            &&& code != 0 ==> codes.len() > 0 && codes.last() != Some(0i32) && code == (
            match codes.last() {
                Some(c) => c,
                None => 1i32,
            })
        }),
{
    assert(list.skip(0) =~= list);
    lemma_runs(log, at, root, hook, args, list, staged, 0, code, to);
}

/// A hook that ends with another code than 0 said last which of its commands failed.
pub proof fn law_failure_is_said(
    log: Seq<Exchange>,
    at: int,
    root: Seq<char>,
    hook: Seq<char>,
    args: Seq<Seq<char>>,
    list: Seq<Node>,
    staged: Seq<Seq<char>>,
    i: int,
    code: i32,
    to: int,
)
    requires
        0 <= at <= log.len(),
        0 <= i,
        play_commands(log, at, root, hook, args, list, staged, i) == Outcome::Done(code, to),
        code != 0,
    ensures
        at + 3 <= to <= log.len(),
        log[to - 1].request.op == Op::Report,
        exists|j: int|
            i <= j < list.len() && (hook_cmd(#[trigger] list[j]) matches Some(c) && command_for(
                c,
                staged,
            ) matches Some(command) && texts(log[to - 2].request.words@) == seq![root, command]
                + args && texts(log[to - 1].request.words@) == seq![
                "git-hooks["@ + hook + "]: FAILED: "@ + c.run + "\n"@,
            ]),
    decreases list.len() - i,
{
    match hook_cmd(list[i]) {
        None => {
            law_failure_is_said(log, at, root, hook, args, list, staged, i + 1, code, to);
        },
        Some(c) => {
            lemma_notices(hook, c.run);
            match command_for(c, staged) {
                None => {
                    law_failure_is_said(
                        log,
                        at + 1,
                        root,
                        hook,
                        args,
                        list,
                        staged,
                        i + 1,
                        code,
                        to,
                    );
                },
                Some(command) => {
                    if to != at + 3 || log[at + 1].reply->Ran_0->Ok_0.code == Some(0i32) {
                        law_failure_is_said(
                            log,
                            at + 2,
                            root,
                            hook,
                            args,
                            list,
                            staged,
                            i + 1,
                            code,
                            to,
                        );
                    } else {
                        assert(hook_cmd(list[i]) is Some);
                    }
                },
            }
        },
    }
}

/// Running the commands of a hook does not give up: it comes to an end, waits for a report
/// to be made or a command to be run, or was given exchanges that are not its own.
pub proof fn law_hook_does_not_give_up(
    log: Seq<Exchange>,
    at: int,
    root: Seq<char>,
    hook: Seq<char>,
    args: Seq<Seq<char>>,
    list: Seq<Node>,
    staged: Seq<Seq<char>>,
    i: int,
)
    requires
        0 <= at <= log.len(),
        0 <= i,
        well_answered(log),
    ensures
        play_commands(log, at, root, hook, args, list, staged, i) matches Outcome::Stop(s) ==> (s
            matches Stop::Ask(op, _) && (op == Op::Report || op == Op::Shell)) || s is Astray,
    decreases list.len() - i,
{
    if i < list.len() {
        match hook_cmd(list[i]) {
            None => {
                law_hook_does_not_give_up(log, at, root, hook, args, list, staged, i + 1);
            },
            Some(c) => {
                if at < log.len() {
                    assert(log[at].request.op == Op::Report ==> log[at].reply is Done);
                }
                if at + 1 < log.len() {
                    assert(log[at + 1].request.op == Op::Shell ==> (log[at + 1].reply
                        matches Reply::Ran(Ok(_))));
                }
                if at + 2 < log.len() {
                    assert(log[at + 2].request.op == Op::Report ==> log[at + 2].reply is Done);
                }
                if at + 1 <= log.len() {
                    law_hook_does_not_give_up(log, at + 1, root, hook, args, list, staged, i + 1);
                }
                if at + 2 <= log.len() {
                    law_hook_does_not_give_up(log, at + 2, root, hook, args, list, staged, i + 1);
                }
            },
        }
    }
}

/// Running the hook that a configuration defines: one that does not parse is said to be
/// bad, and ends in one; a hook that it has no list for ends in zero, with nothing asked;
/// and any other runs the commands of its list, for the files that are staged.
pub proof fn law_configuration_is_run(
    log: Seq<Exchange>,
    at: int,
    root: Seq<char>,
    raw: Seq<char>,
    hook: Seq<char>,
    args: Seq<Seq<char>>,
)
    requires
        0 <= at <= log.len(),
    ensures
        toml_parsed(raw) matches Err(e) ==> (play_configured(log, at, root, raw, hook, args)
            matches Outcome::Done(code, to) ==> code == 1 && to == at + 1 && to <= log.len()
            && log[at].request.op == Op::Report && texts(log[at].request.words@) == seq![
            "git-hooks: bad .githooks.toml: "@ + e + "\n"@,
        ]),
        toml_parsed(raw) matches Ok(doc) ==> (entries_for(doc, hook) is None ==> play_configured(
            log,
            at,
            root,
            raw,
            hook,
            args,
        ) == Outcome::Done(0i32, at)),
        toml_parsed(raw) matches Ok(doc) ==> (entries_for(doc, hook) matches Some(list) ==> (
        play_staged_files(log, at, root) matches Outcome::Done(staged, b) ==> play_configured(
            log,
            at,
            root,
            raw,
            hook,
            args,
        ) == play_commands(log, b, root, hook, args, list, staged, 0))),
{
    reveal_strlit("git-hooks: bad ");
    reveal_strlit(": ");
    reveal_strlit(".githooks.toml");
    reveal_strlit("git-hooks: bad .githooks.toml: ");
    if let Err(e) = toml_parsed(raw) {
        assert("git-hooks: bad "@ + ".githooks.toml"@ + ": "@
            =~= "git-hooks: bad .githooks.toml: "@);
        assert(crate::hook::bad_config_notice(e) =~= "git-hooks: bad .githooks.toml: "@ + e
            + "\n"@);
    }
}

} // verus!
