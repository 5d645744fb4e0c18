//! The program: which command its arguments name.
use crate::commands::{
    consent, diff, init, install, play_add, play_consent, play_diff, play_init, play_install,
    play_status, play_uninstall, status, uninstall, usage, usage_stop,
};
use crate::hook::{play_run_hook, run_hook};
use crate::signing::{play_sign, play_trust_cmd, play_untrust_cmd, sign, trust_cmd, untrust_cmd};
use crate::text::{same, texts};
use crate::world::{Exchange, Halt, Outcome, Run, Stop};
use vstd::prelude::*;

verus! {

/// How the program ends when its command has come to an end.
pub open spec fn ending(o: Outcome<()>) -> Stop {
    match o {
        Outcome::Done(_, _) => Stop::Exit(0),
        Outcome::Stop(s) => s,
    }
}

/// How the program ends when a hook has come to an end.
pub open spec fn hook_ending(o: Outcome<i32>) -> Stop {
    match o {
        Outcome::Done(code, _) => Stop::Exit(code),
        Outcome::Stop(s) => s,
    }
}

/// What the program with the given arguments does next, after the exchanges so
/// far.
#[verifier::opaque]
pub open spec fn play_program(
    args: Seq<Seq<char>>,
    log: Seq<Exchange>,
    windows: bool,
) -> Stop {
    if args.len() == 0 {
        usage_stop(log, 0)
    } else if args[0] == "install"@ {
        ending(play_install(windows, log, 0))
    } else if args[0] == "init"@ {
        ending(play_init(log, 0, windows))
    } else if args[0] == "uninstall"@ {
        ending(play_uninstall(windows, log, 0))
    } else if args[0] == "add"@ {
        if args.len() >= 3 {
            ending(play_add(windows, log, 0, args[1], args[2]))
        } else {
            usage_stop(log, 0)
        }
    } else if args[0] == "accept"@ {
        ending(play_consent(windows, log, 0, true))
    } else if args[0] == "decline"@ {
        ending(play_consent(windows, log, 0, false))
    } else if args[0] == "status"@ {
        ending(play_status(windows, log, 0))
    } else if args[0] == "diff"@ {
        ending(play_diff(windows, log, 0))
    } else if args[0] == "sign"@ {
        ending(play_sign(windows, log, 0, args.skip(1)))
    } else if args[0] == "trust"@ {
        ending(play_trust_cmd(windows, log, 0, args.skip(1)))
    } else if args[0] == "untrust"@ {
        ending(play_untrust_cmd(windows, log, 0, args.skip(1)))
    } else if args[0] == "run"@ {
        if args.len() >= 2 {
            hook_ending(play_run_hook(log, 0, windows, args[1], args.skip(2)))
        } else {
            usage_stop(log, 0)
        }
    } else {
        usage_stop(log, 0)
    }
}

/// The arguments from a place on.
fn arguments_from(args: &Vec<String>, k: usize) -> (r: Vec<String>)
    requires
        k <= args@.len(),
    ensures
        texts(r@) == texts(args@).skip(k as int),
{
    let mut out: Vec<String> = Vec::new();
    let mut i: usize = k;
    while i < args.len()
        invariant
            k <= i <= args@.len(),
            out@.len() == i - k,
            forall|j: int| 0 <= j < out@.len() ==> (#[trigger] out@[j])@ == args@[k + j]@,
        decreases args@.len() - i,
    {
        out.push(args[i].clone());
        i = i + 1;
    }
    assert(texts(out@) =~= texts(args@).skip(k as int));
    out
}

/// How the program ends when its command has come to an end.
fn end(r: Result<(), Halt>) -> (h: Halt)
    ensures
        h@ == (match r {
            Ok(_) => Stop::Exit(0),
            Err(e) => e@,
        }),
{
    match r {
        Ok(_) => Halt::Exit(0),
        Err(h) => h,
    }
}

/// What the program with the given arguments does next, after the exchanges so
/// far: it makes a request, exits, or gives up.
pub fn program(args: &Vec<String>, log: &Vec<Exchange>, windows: bool) -> (r: Halt)
    ensures
        r@ == play_program(texts(args@), log@, windows),
{
    proof {
        reveal(play_program);
    }
    let mut run = Run::new(log, windows);
    let ghost all = texts(args@);
    assert(all.len() == args@.len());
    if args.len() == 0 {
        return usage(&mut run);
    }
    assert(all[0] == args@[0]@);
    let name = args[0].as_str();
    if same(name, "install") {
        end(install(&mut run))
    } else if same(name, "init") {
        end(init(&mut run))
    } else if same(name, "uninstall") {
        end(uninstall(&mut run))
    } else if same(name, "add") {
        if args.len() >= 3 {
            assert(all[1] == args@[1]@ && all[2] == args@[2]@);
            end(crate::commands::add(&mut run, args[1].as_str(), args[2].as_str()))
        } else {
            usage(&mut run)
        }
    } else if same(name, "accept") {
        end(consent(&mut run, true))
    } else if same(name, "decline") {
        end(consent(&mut run, false))
    } else if same(name, "status") {
        end(status(&mut run))
    } else if same(name, "diff") {
        end(diff(&mut run))
    } else if same(name, "sign") {
        let rest = arguments_from(args, 1);
        end(sign(&mut run, &rest))
    } else if same(name, "trust") {
        let rest = arguments_from(args, 1);
        end(trust_cmd(&mut run, &rest))
    } else if same(name, "untrust") {
        let rest = arguments_from(args, 1);
        end(untrust_cmd(&mut run, &rest))
    } else if same(name, "run") {
        if args.len() >= 2 {
            assert(all[1] == args@[1]@);
            let rest = arguments_from(args, 2);
            match run_hook(&mut run, args[1].as_str(), &rest) {
                Ok(code) => Halt::Exit(code),
                Err(h) => h,
            }
        } else {
            usage(&mut run)
        }
    } else {
        usage(&mut run)
    }
}

/// What the program does when its first argument is `run`.
pub proof fn lemma_program_runs(args: Seq<Seq<char>>, log: Seq<Exchange>, windows: bool)
    requires
        args.len() > 0,
        args[0] == "run"@,
    ensures
        play_program(args, log, windows) == (if args.len() >= 2 {
            hook_ending(play_run_hook(log, 0, windows, args[1], args.skip(2)))
        } else {
            usage_stop(log, 0)
        }),
{
    reveal(play_program);
    reveal_strlit("run");
    reveal_strlit("install");
    reveal_strlit("init");
    reveal_strlit("uninstall");
    reveal_strlit("add");
    reveal_strlit("accept");
    reveal_strlit("decline");
    reveal_strlit("status");
    reveal_strlit("diff");
    reveal_strlit("sign");
    reveal_strlit("trust");
    reveal_strlit("untrust");
    assert(args[0].len() == 3 && args[0][0] == 'r');
    assert("install"@.len() == 7);
    assert("init"@.len() == 4);
    assert("uninstall"@.len() == 9);
    assert("add"@[0] == 'a');
    assert("accept"@.len() == 6);
    assert("decline"@.len() == 7);
    assert("status"@.len() == 6);
    assert("diff"@.len() == 4);
    assert("sign"@.len() == 4);
    assert("trust"@.len() == 5);
    assert("untrust"@.len() == 7);
}

} // verus!
