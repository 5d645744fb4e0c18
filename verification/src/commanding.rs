//! What the program is told to do: its commands, and their arguments.
use crate::commands::{
    play_add, play_consent, play_diff, play_init, play_install, play_status, play_uninstall, USAGE,
};
use crate::ending::gives_up;
use crate::git::play_git_capture;
use crate::hook::play_run_hook;
use crate::program::play_program;
use crate::signing::{
    play_principal, play_sign, play_trust_cmd, play_untrust_cmd, sign_args, sign_args_from,
    trust_args,
};
use crate::world::{Exchange, Outcome, Stop};
use vstd::prelude::*;

verus! {

// ---------------------------------------------------------------------------
// Arguments.
// ---------------------------------------------------------------------------

/// The arguments of `trust` and `untrust` name a key where exactly one of them is not
/// `--global`: that one. The key is for the policy where `--global` is among them.
pub proof fn law_trust_args(args: Seq<Seq<char>>, key: Seq<char>, global: bool)
    ensures
        trust_args(args) == Some((key, global)) <==> global == (args.len() > 1) && exists|i: int|
            0 <= i < args.len() && args[i] == key && key != "--global"@ && forall|j: int|
                0 <= j < args.len() && j != i ==> #[trigger] args[j] == "--global"@,
{
    let keep = |a: Seq<char>| a != "--global"@;
    let keys = args.filter(keep);
    lemma_kept(args, keep);
    if trust_args(args) == Some((key, global)) {
        let i = choose|i: int| 0 <= i < args.len() && args[i] == keys[0] && forall|j: int|
            0 <= j < args.len() && j != i ==> !keep(#[trigger] args[j]);
        assert(args[i] == key);
        assert(key != "--global"@);
        if args.len() > 1 {
            let j: int = if i == 0 {
                1
            } else {
                0
            };
            assert(!keep(args[j]));
            assert(args.contains(args[j]));
        } else {
            assert(!args.contains("--global"@));
        }
    }
    if exists|i: int|
        0 <= i < args.len() && args[i] == key && key != "--global"@ && forall|j: int|
            0 <= j < args.len() && j != i ==> #[trigger] args[j] == "--global"@ {
        let i = choose|i: int|
            0 <= i < args.len() && args[i] == key && key != "--global"@ && forall|j: int|
                0 <= j < args.len() && j != i ==> #[trigger] args[j] == "--global"@;
        assert(keep(args[i]));
        assert(keys.len() == 1 && keys[0] == key);
        if args.len() > 1 {
            let j: int = if i == 0 {
                1
            } else {
                0
            };
            assert(args[j] == "--global"@);
            assert(args.contains(args[j]));
        } else {
            assert(!args.contains("--global"@));
        }
    }
}

/// A list of which one element is kept.
proof fn lemma_kept(list: Seq<Seq<char>>, keep: spec_fn(Seq<char>) -> bool)
    ensures
        list.filter(keep).len() == 0 <==> forall|j: int|
            0 <= j < list.len() ==> !keep(#[trigger] list[j]),
        list.filter(keep).len() == 1 ==> keep(list.filter(keep)[0]) && exists|i: int|
            0 <= i < list.len() && list[i] == list.filter(keep)[0] && forall|j: int|
                0 <= j < list.len() && j != i ==> !keep(#[trigger] list[j]),
        forall|i: int|
            0 <= i < list.len() && keep(#[trigger] list[i]) && (forall|j: int|
                0 <= j < list.len() && j != i ==> !keep(#[trigger] list[j])) ==> list.filter(
                keep,
            ) == seq![list[i]],
    decreases list.len(),
{
    reveal(Seq::filter);
    if list.len() > 0 {
        let few = list.drop_last();
        let n = few.len() as int;
        lemma_kept(few, keep);
        assert(forall|j: int| 0 <= j < n ==> list[j] == few[j]);
        if list.filter(keep).len() == 1 {
            if keep(list[n]) {
                assert(few.filter(keep).len() == 0);
                assert(list.filter(keep)[0] == list[n]);
                assert(forall|j: int| 0 <= j < list.len() && j != n ==> !keep(#[trigger] list[j]));
            } else {
                let i = choose|i: int|
                    0 <= i < few.len() && few[i] == few.filter(keep)[0] && forall|j: int|
                        0 <= j < few.len() && j != i ==> !keep(#[trigger] few[j]);
                assert(list[i] == list.filter(keep)[0]);
                assert forall|j: int| 0 <= j < list.len() && j != i implies !keep(
                    #[trigger] list[j],
                ) by {
                    if j < n {
                        assert(!keep(few[j]));
                    }
                }
            }
        }
        assert forall|i: int|
            0 <= i < list.len() && keep(#[trigger] list[i]) && (forall|j: int|
                0 <= j < list.len() && j != i ==> !keep(#[trigger] list[j])) implies list.filter(
            keep,
        ) == seq![list[i]] by {
            if i == n {
                assert forall|j: int| 0 <= j < few.len() implies !keep(#[trigger] few[j]) by {
                    assert(!keep(list[j]));
                }
                assert(few.filter(keep) =~= seq![]);
                assert(list.filter(keep) =~= seq![list[i]]);
            } else {
                assert(keep(few[i]));
                assert forall|j: int| 0 <= j < few.len() && j != i implies !keep(
                    #[trigger] few[j],
                ) by {
                    assert(!keep(list[j]));
                }
                assert(!keep(list[n]));
            }
        }
        if forall|j: int| 0 <= j < list.len() ==> !keep(#[trigger] list[j]) {
            assert forall|j: int| 0 <= j < few.len() implies !keep(#[trigger] few[j]) by {
                assert(!keep(list[j]));
            }
            assert(!keep(list[n]));
        }
        if list.filter(keep).len() == 0 {
            assert forall|j: int| 0 <= j < list.len() implies !keep(#[trigger] list[j]) by {
                if j < n {
                    assert(!keep(few[j]));
                }
            }
        }
    }
}

/// The arguments of `sign` are read in pairs: `--key` with a key, and `--signer` with a
/// signer. The last of each kind counts, one without a value takes it away, and any other
/// argument makes for none.
pub proof fn law_sign_args(
    args: Seq<Seq<char>>,
    flag: Seq<char>,
    value: Seq<char>,
    key: Option<Seq<char>>,
    signer: Option<Seq<char>>,
)
    requires
        args.len() % 2 == 0,
    ensures
        sign_args_from(seq![], 0, key, signer) == Some((key, signer)),
        sign_args_from(args, 0, key, signer) is None ==> sign_args_from(
            args + seq![flag, value],
            0,
            key,
            signer,
        ) is None,
        sign_args_from(args, 0, key, signer) matches Some((k, s)) ==> {
            &&& flag == "--key"@ ==> sign_args_from(args + seq![flag, value], 0, key, signer)
                == Some((Some(value), s)) && sign_args_from(args + seq![flag], 0, key, signer)
                == Some((None::<Seq<char>>, s))
            &&& flag == "--signer"@ ==> sign_args_from(args + seq![flag, value], 0, key, signer)
                == Some((k, Some(value))) && sign_args_from(args + seq![flag], 0, key, signer)
                == Some((k, None::<Seq<char>>))
            &&& flag != "--key"@ && flag != "--signer"@ ==> sign_args_from(
                args + seq![flag, value],
                0,
                key,
                signer,
            ) is None && sign_args_from(args + seq![flag], 0, key, signer) is None
        },
        sign_args(args) == (match sign_args_from(args, 0, None, None) {
            Some((Some(k), s)) => Some((k, s)),
            _ => None,
        }),
{
    reveal_strlit("--key");
    reveal_strlit("--signer");
    assert("--key"@.len() != "--signer"@.len());
    lemma_pairs(args, seq![flag, value], 0, key, signer);
    lemma_pairs(args, seq![flag], 0, key, signer);
    let n = args.len() as int;
    let both = args + seq![flag, value];
    let one = args + seq![flag];
    assert(both[n] == flag && both[n + 1] == value && one[n] == flag);
    reveal_with_fuel(sign_args_from, 2);
}

/// Pairs of arguments are read one after the other.
proof fn lemma_pairs(
    args: Seq<Seq<char>>,
    more: Seq<Seq<char>>,
    i: int,
    key: Option<Seq<char>>,
    signer: Option<Seq<char>>,
)
    requires
        0 <= i <= args.len(),
        (args.len() - i) % 2 == 0,
    ensures
        sign_args_from(args + more, i, key, signer) == (match sign_args_from(args, i, key, signer) {
            None => None,
            Some((k, s)) => sign_args_from(args + more, args.len() as int, k, s),
        }),
    decreases args.len() - i,
{
    let all = args + more;
    if i < args.len() {
        assert(i + 1 < args.len());
        assert(all[i] == args[i] && all[i + 1] == args[i + 1]);
        if args[i] == "--key"@ {
            lemma_pairs(args, more, i + 2, Some(args[i + 1]), signer);
        } else if args[i] == "--signer"@ {
            lemma_pairs(args, more, i + 2, key, Some(args[i + 1]));
        }
    }
}

/// Who signs: the signer that was named, or else the one whose address `git` knows.
pub proof fn law_signer(
    log: Seq<Exchange>,
    at: int,
    signer: Option<Seq<char>>,
    principal: Seq<char>,
    to: int,
)
    ensures
        play_principal(log, at, signer) == Outcome::Done(principal, to) <==> signer == Some(
            principal,
        ) && to == at || signer is None && play_git_capture(
            log,
            at,
            seq!["config"@, "user.email"@],
        ) == Outcome::Done(Some(principal), to),
        signer is None ==> (play_git_capture(log, at, seq!["config"@, "user.email"@])
            matches Outcome::Done(None, b) ==> gives_up(
            log,
            b,
            play_principal(log, at, signer),
            "no --signer given and git user.email is unset\n"@,
            1,
        )),
{
}

// ---------------------------------------------------------------------------
// Commands.
// ---------------------------------------------------------------------------

/// How a command that came to `o` ends: with 0 where it is through.
pub open spec fn ends_as(s: Stop, o: Outcome<()>) -> bool {
    match o {
        Outcome::Done(_, _) => s == Stop::Exit(0),
        Outcome::Stop(t) => s == t,
    }
}

/// The first word says what to do, and the words behind it with what; a command that is
/// through ends with 0, and a hook with its own code.
pub proof fn law_first_word_commands(args: Seq<Seq<char>>, log: Seq<Exchange>, windows: bool)
    requires
        args.len() > 0,
    ensures
        ({
            let s = play_program(args, log, windows);
            &&& args[0] == "install"@ ==> ends_as(s, play_install(windows, log, 0))
            &&& args[0] == "init"@ ==> ends_as(s, play_init(log, 0, windows))
            &&& args[0] == "uninstall"@ ==> ends_as(s, play_uninstall(windows, log, 0))
            &&& args[0] == "add"@ && args.len() >= 3 ==> ends_as(
                s,
                play_add(windows, log, 0, args[1], args[2]),
            )
            &&& args[0] == "accept"@ ==> ends_as(s, play_consent(windows, log, 0, true))
            &&& args[0] == "decline"@ ==> ends_as(s, play_consent(windows, log, 0, false))
            &&& args[0] == "status"@ ==> ends_as(s, play_status(windows, log, 0))
            &&& args[0] == "diff"@ ==> ends_as(s, play_diff(windows, log, 0))
            &&& args[0] == "sign"@ ==> ends_as(s, play_sign(windows, log, 0, args.drop_first()))
            &&& args[0] == "trust"@ ==> ends_as(
                s,
                play_trust_cmd(windows, log, 0, args.drop_first()),
            )
            &&& args[0] == "untrust"@ ==> ends_as(
                s,
                play_untrust_cmd(windows, log, 0, args.drop_first()),
            )
            &&& args[0] == "run"@ && args.len() >= 2 ==> (match play_run_hook(
                log,
                0,
                windows,
                args[1],
                args.skip(2),
            ) {
                Outcome::Done(code, _) => s == Stop::Exit(code),
                Outcome::Stop(t) => s == t,
            })
        }),
{
    reveal(play_program);
    lemma_words_differ();
    assert(args.drop_first() =~= args.skip(1));
}

/// Anything else ends in the usage, and 2: no word, one that is no command, and too few
/// words behind `add` and `run`.
pub proof fn law_usage(args: Seq<Seq<char>>, log: Seq<Exchange>, windows: bool)
    requires
        args.len() > 0 ==> !is_command(args[0]) || args[0] == "add"@ && args.len() < 3 || args[0]
            == "run"@ && args.len() < 2,
    ensures
        gives_up(log, 0, Outcome::<()>::Stop(play_program(args, log, windows)), USAGE@, 2),
{
    reveal(play_program);
    lemma_words_differ();
}

/// Whether a word is a command.
pub open spec fn is_command(w: Seq<char>) -> bool {
    w == "install"@ || w == "init"@ || w == "uninstall"@ || w == "add"@ || w == "accept"@ || w
        == "decline"@ || w == "status"@ || w == "diff"@ || w == "sign"@ || w == "trust"@ || w
        == "untrust"@ || w == "run"@
}

/// The commands are different words.
proof fn lemma_words_differ()
    ensures
        "install"@ != "untrust"@,
        "install"@ != "decline"@,
        "init"@ != "diff"@,
        "init"@ != "sign"@,
        "diff"@ != "sign"@,
        "add"@ != "run"@,
        "accept"@ != "status"@,
        "untrust"@ != "decline"@,
        "install"@.len() == 7,
        "init"@.len() == 4,
        "uninstall"@.len() == 9,
        "add"@.len() == 3,
        "accept"@.len() == 6,
        "decline"@.len() == 7,
        "status"@.len() == 6,
        "diff"@.len() == 4,
        "sign"@.len() == 4,
        "trust"@.len() == 5,
        "untrust"@.len() == 7,
        "run"@.len() == 3,
{
    reveal_strlit("install");
    reveal_strlit("init");
    reveal_strlit("uninstall");
    reveal_strlit("add");
    reveal_strlit("accept");
    reveal_strlit("decline");
    reveal_strlit("status");
    reveal_strlit("diff");
    reveal_strlit("sign");
    reveal_strlit("trust");
    reveal_strlit("untrust");
    reveal_strlit("run");
    assert("install"@[1] == 'n' && "init"@[1] == 'n' && "diff"@[1] == 'i' && "sign"@[0] == 's');
    assert("init"@[0] == 'i' && "diff"@[0] == 'd' && "add"@[0] == 'a' && "run"@[0] == 'r');
    assert("accept"@[0] == 'a' && "status"@[0] == 's' && "install"@[0] == 'i');
    assert("untrust"@[0] == 'u' && "decline"@[0] == 'd');
}

} // verus!
