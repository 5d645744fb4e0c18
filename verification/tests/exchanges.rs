//! Single exchanges: replies of every kind, and what becomes of them.
use hookguard::commands::{shim_body, show_init, show_state, SHIM_MARKER};
use hookguard::program::program;
use hookguard::prompt::{
    find_blob, prompt_text, read_answer, show_names, show_refs, show_removals, show_scripts,
    tty_devices,
};
use hookguard::signing::{knows_line, other_keys, parse_sign_args, parse_trust_args};
use hookguard::trust::{show_signature, Trust};
use hookguard::world::{Exchange, Finished, Halt, Op, Reply, Request, Run};

fn owned(list: &[&str]) -> Vec<String> {
    list.iter().map(|s| s.to_string()).collect()
}

fn ran(code: Option<i32>, stdout: &[u8]) -> Reply {
    Reply::Ran(Ok(Finished { code, fed: true, stdout: stdout.to_vec(), stderr: Vec::new() }))
}

/// Calls the program with the given replies, one after the other, and gives the
/// requests and the end.
fn follow(args: &[&str], windows: bool, replies: Vec<Reply>) -> (Vec<(Op, Vec<String>)>, Halt) {
    let args = owned(args);
    let mut log: Vec<Exchange> = Vec::new();
    let mut asked = Vec::new();
    for reply in replies {
        match program(&args, &log, windows) {
            Halt::Ask(request) => {
                asked.push((request.op, request.words.clone()));
                log.push(Exchange { request, reply });
            }
            end => return (asked, end),
        }
    }
    (asked, program(&args, &log, windows))
}

fn abort(h: Halt) -> String {
    match h {
        Halt::Abort(reason) => reason,
        _ => panic!("no abort"),
    }
}

#[test]
fn output_that_is_not_utf8_is_replaced() {
    let f = Finished {
        code: Some(0),
        fed: true,
        stdout: vec![b'a', 0xff, 0xc3, 0xa9],
        stderr: vec![0xe2, 0x82],
    };
    assert_eq!(f.output(), "a\u{fffd}é");
    assert_eq!(f.errors(), "\u{fffd}");
    assert!(f.success());
    let f = Finished { code: None, fed: true, stdout: Vec::new(), stderr: Vec::new() };
    assert!(!f.success());
}

#[test]
fn a_root_is_taken_from_what_git_writes() {
    // The bytes become text, and the text is trimmed.
    let (asked, _) = follow(
        &["status"],
        false,
        vec![ran(Some(0), b" /re\xffpo \n"), Reply::Text(None)],
    );
    assert_eq!(asked[1], (Op::ReadText, owned(&["/re\u{fffd}po/.githooks.toml"])));
}

#[test]
fn replies_that_do_not_fit() {
    let (_, end) = follow(&["status"], false, vec![Reply::Done]);
    assert_eq!(abort(end), "the reply does not fit the request");
    let (_, end) = follow(&["install"], false, vec![ran(Some(0), b"")]);
    assert_eq!(abort(end), "the reply does not fit the request");
}

#[test]
fn exchanges_of_another_command() {
    let log = vec![Exchange {
        request: Request { op: Op::EnvVar, words: owned(&["HOME"]) },
        reply: Reply::Text(Some("/home".to_string())),
    }];
    assert!(matches!(program(&owned(&["status"]), &log, false), Halt::Astray));
    assert!(matches!(program(&owned(&["install"]), &log, false), Halt::Ask(_)));
}

#[test]
fn an_end_is_final() {
    let replies = vec![ran(Some(128), b""), Reply::Done];
    let (asked, end) = follow(&["status"], false, replies);
    assert_eq!(asked.len(), 2);
    assert!(matches!(end, Halt::Exit(1)));
    let (asked, end) = follow(
        &["status"],
        false,
        vec![ran(Some(128), b""), Reply::Done, Reply::Flag(true)],
    );
    assert_eq!(asked.len(), 2);
    assert!(matches!(end, Halt::Exit(1)));
}

#[test]
fn a_run_reads_replies_in_order() {
    let log = vec![
        Exchange {
            request: Request { op: Op::IsFile, words: owned(&["a"]) },
            reply: Reply::Flag(true),
        },
        Exchange {
            request: Request { op: Op::ListDir, words: owned(&["d"]) },
            reply: Reply::Listing(owned(&["x"]), owned(&["y", "z"])),
        },
    ];
    let mut run = Run::new(&log, false);
    assert!(matches!(run.ask_flag(Op::IsFile, owned(&["a"])), Ok(true)));
    match run.ask_listing("d") {
        Ok((dirs, files)) => {
            assert_eq!((dirs, files), (&owned(&["x"]), &owned(&["y", "z"])));
        }
        Err(_) => panic!("no listing"),
    }
    match run.ask_done(Op::Print, owned(&["hello"])) {
        Err(Halt::Ask(r)) => assert_eq!((r.op, r.words), (Op::Print, owned(&["hello"]))),
        _ => panic!("no request"),
    }
    assert_eq!(run.at, 2);
}

#[test]
fn processes_that_cannot_be_run() {
    let refused = || Reply::Ran(Err("No such file or directory (os error 2)".to_string()));
    // Without git there is no repository.
    let (asked, end) = follow(&["status"], false, vec![refused(), Reply::Done]);
    assert_eq!(asked[1], (Op::Report, owned(&["not inside a git repository\n"])));
    assert!(matches!(end, Halt::Exit(1)));
    let (_, end) = follow(&["uninstall"], false, vec![refused()]);
    assert_eq!(abort(end), "run git");
    let root = || ran(Some(0), b"/repo\n");
    let listing = || Reply::Listing(Vec::new(), Vec::new());
    let (asked, end) = follow(
        &["sign", "--key", "k"],
        false,
        vec![root(), Reply::Flag(true), ran(Some(0), b"1\n"), listing(), refused(), Reply::Done],
    );
    assert_eq!(
        asked[4],
        (
            Op::SshFeed,
            owned(&[".githooks.toml:1\n", "-Y", "sign", "-f", "k", "-n", "git-hooks"])
        )
    );
    assert_eq!(
        asked[5],
        (
            Op::Report,
            owned(&["could not run ssh-keygen: No such file or directory (os error 2)\n"])
        )
    );
    assert!(matches!(end, Halt::Exit(1)));
    // The consent hash needs git to take its input.
    let unfed = Reply::Ran(Ok(Finished {
        code: Some(0),
        fed: false,
        stdout: Vec::new(),
        stderr: Vec::new(),
    }));
    let (_, end) = follow(
        &["accept"],
        false,
        vec![root(), root(), Reply::Flag(true), ran(Some(0), b"1\n"), listing(), unfed],
    );
    assert_eq!(abort(end), "write to git hash-object");
    let (_, end) = follow(
        &["accept"],
        false,
        vec![root(), root(), Reply::Flag(true), ran(Some(0), b"1\n"), listing(), refused()],
    );
    assert_eq!(abort(end), "spawn git hash-object");
}

fn accepted_run(shell: Vec<Reply>) -> (Vec<(Op, Vec<String>)>, Halt) {
    let root = || ran(Some(0), b"/repo\n");
    let mut replies = vec![
        root(),
        Reply::Text(Some("[hooks]\npre-commit = [\"x\"]\n".to_string())),
        root(),
        Reply::Flag(true),
        ran(Some(0), b"1\n"),
        Reply::Listing(Vec::new(), Vec::new()),
        ran(Some(0), b"hash\n"),
        Reply::Text(Some("accept:hash".to_string())),
        ran(Some(0), b""),
        Reply::Done,
    ];
    replies.extend(shell);
    follow(&["run", "pre-commit", "a b"], false, replies)
}

#[test]
fn commands_that_end_by_a_signal_or_do_not_start() {
    let (asked, end) = accepted_run(vec![ran(None, b""), Reply::Done]);
    assert_eq!(asked[10], (Op::Shell, owned(&["/repo", "x", "a b"])));
    assert_eq!(asked[11], (Op::Report, owned(&["git-hooks[pre-commit]: FAILED: x\n"])));
    assert!(matches!(end, Halt::Exit(1)));
    let (_, end) = accepted_run(vec![ran(Some(200), b""), Reply::Done]);
    assert!(matches!(end, Halt::Exit(200)));
    let (_, end) = accepted_run(vec![ran(Some(0), b"")]);
    assert!(matches!(end, Halt::Exit(0)));
    let (_, end) = accepted_run(vec![Reply::Ran(Err("no".to_string()))]);
    assert_eq!(abort(end), "spawn sh");
}

#[test]
fn the_configuration_vanishes() {
    let root = || ran(Some(0), b"/repo\n");
    let (_, end) = follow(
        &["run", "pre-commit"],
        false,
        vec![root(), Reply::Text(Some(String::new())), root(), Reply::Flag(false)],
    );
    assert_eq!(abort(end), "config file exists");
}

#[test]
fn home_directories() {
    let none = || Reply::Text(None);
    let (_, end) = follow(&["install"], false, vec![none(), none()]);
    assert_eq!(abort(end), "HOME/USERPROFILE not set");
    let (asked, _) =
        follow(&["install"], true, vec![none(), Reply::Text(Some("C:/Users/me".to_string()))]);
    assert_eq!(asked, vec![
        (Op::EnvVar, owned(&["HOME"])),
        (Op::EnvVar, owned(&["USERPROFILE"])),
    ]);
    match follow(&["install"], true, vec![Reply::Text(Some("C:/Users/me".to_string()))]).1 {
        Halt::Ask(r) => {
            assert_eq!(r.op, Op::CreateDirs);
            assert_eq!(r.words, owned(&["C:/Users/me\\.config/git-hooks/template\\hooks"]));
        }
        _ => panic!("no request"),
    }
}

#[test]
fn hooks_directories() {
    let start = |git_path: &[u8], windows: bool| {
        follow(
            &["init"],
            windows,
            vec![
                ran(Some(0), b"/repo\n"),
                Reply::Text(Some("/home".to_string())),
                Reply::Flag(true),
                ran(Some(0), git_path),
                Reply::Text(Some("/repo/sub".to_string())),
                Reply::Done,
            ],
        )
        .0
    };
    let asked = start(b"../.git/hooks\n", false);
    assert_eq!(asked[4].0, Op::CurrentDir);
    assert_eq!(asked[5], (Op::CreateDirs, owned(&["/repo/sub/../.git/hooks"])));
    let asked = start(b"/elsewhere/hooks\n", false);
    assert_eq!(asked[4], (Op::CreateDirs, owned(&["/elsewhere/hooks"])));
    let asked = start(b"C:/hooks\n", true);
    assert_eq!(asked[4], (Op::CreateDirs, owned(&["C:/hooks"])));
    let (asked, end) = follow(
        &["init"],
        false,
        vec![
            ran(Some(0), b"/repo\n"),
            Reply::Text(Some("/home".to_string())),
            Reply::Flag(true),
            ran(Some(1), b""),
            Reply::Done,
        ],
    );
    assert_eq!(asked[4], (Op::Report, owned(&["could not resolve this repo's hooks dir\n"])));
    assert!(matches!(end, Halt::Exit(1)));
}

#[test]
fn console_devices() {
    assert_eq!(tty_devices(false), ("/dev/tty", "/dev/tty"));
    assert_eq!(tty_devices(true), ("CONIN$", "CONOUT$"));
}

#[test]
fn a_terminal_that_cannot_be_read() {
    let root = || ran(Some(0), b"/repo\n");
    let raw = || Reply::Text(Some("[hooks]\n".to_string()));
    let listing = || Reply::Listing(Vec::new(), Vec::new());
    let (asked, end) = follow(
        &["run", "pre-commit"],
        true,
        vec![
            root(),
            raw(),
            root(),
            Reply::Flag(true),
            ran(Some(0), b"1\n"),
            listing(),
            ran(Some(0), b"hash\n"),
            Reply::Text(None),
            ran(Some(1), b""),
            Reply::Flag(false),
            Reply::Text(Some("/home".to_string())),
            Reply::Text(None),
            Reply::Flag(true),
            ran(Some(1), b""),
            listing(),
            raw(),
            Reply::Done,
            Reply::Text(None),
        ],
    );
    assert_eq!(asked[12], (Op::OpenTerminal, owned(&["CONIN$", "CONOUT$"])));
    assert_eq!(asked[17].0, Op::HearTerminal);
    assert_eq!(abort(end), "read the terminal");
}

#[test]
fn answers() {
    assert_eq!(read_answer("t\n", true), (true, true));
    assert_eq!(read_answer("T", true), (true, true));
    assert_eq!(read_answer("t\n", false), (false, false));
    for yes in ["y", "Y\r\n", " yes "] {
        assert_eq!(read_answer(yes, true), (true, false));
        assert_eq!(read_answer(yes, false), (true, false));
    }
    for no in ["", "n", "Yes", "yes!", "tt"] {
        assert_eq!(read_answer(no, true), (false, false), "{no:?}");
    }
}

#[test]
fn prompts_and_lines() {
    let valid =
        Trust::Valid { principal: "p".to_string(), fingerprint: "f".to_string() };
    assert_eq!(
        prompt_text(&valid, "B", "W\n"),
        "\nsigned by p, key f\n\nB\nthese commands will run on your machine during git operations.\n\
         W\n[y]es once / [t]rust key / [N]o \n"
    );
    assert_eq!(
        prompt_text(&Trust::Unsigned, "B", ""),
        "\nB\nthese commands will run on your machine during git operations.\naccept? [y/N] \n"
    );
    assert_eq!(
        show_signature(&valid, true),
        "signature: signed by p, key f — valid, trusted"
    );
    assert_eq!(
        show_signature(&valid, false),
        "signature: signed by p, key f — valid, untrusted"
    );
    assert_eq!(show_signature(&Trust::Invalid, true), "signature: present but INVALID");
    assert_eq!(show_signature(&Trust::Unsigned, false), "signature: unsigned");
    assert_eq!(show_names(&owned(&["a", "b"])), "  a\n  b\n");
    assert_eq!(show_scripts(&owned(&[])), "");
    assert_eq!(
        show_scripts(&owned(&["a"])),
        "\ncovered scripts under .githooks/:\n  a\n"
    );
    assert_eq!(show_refs(&owned(&[])), "");
    assert_eq!(
        show_refs(&owned(&["b", "a", "b"])),
        "note: these commands reference repo files whose content is NOT covered by this consent:\n  a\n  b\n"
    );
    assert_eq!(
        show_init(&owned(&[]), &owned(&["a", "b"])),
        "no shims installed.\nskipped (existing non-shim hook, left untouched): a, b\n"
    );
    assert_eq!(
        show_state(&Some("decline:h".to_string()), &Some("h".to_string())),
        "\nstatus: declined\ncontent hash: h\n"
    );
    assert_eq!(
        show_state(&Some("decline:h".to_string()), &None),
        "\nstatus: config or .githooks/ changed since your last decision — will re-prompt\n"
    );
    assert!(shim_body("pre-push").contains(SHIM_MARKER));
}

#[test]
fn accepted_blobs_and_removals() {
    let pair = |a: &str, b: &str| (a.to_string(), b.to_string());
    let manifest = vec![pair("a", "1"), pair("b", "2"), pair("a", "3")];
    assert_eq!(find_blob(&manifest, "a").map(String::as_str), Some("3"));
    assert_eq!(find_blob(&manifest, "b").map(String::as_str), Some("2"));
    assert_eq!(find_blob(&manifest, "c"), None);
    assert_eq!(
        show_removals(&manifest, &owned(&["b"])),
        "--- removed: a ---\n--- removed: a ---\n"
    );
}

#[test]
fn arguments_of_sign_and_trust() {
    let sign = |a: &[&str]| parse_sign_args(&owned(a));
    assert_eq!(sign(&["--key", "k"]), Some(("k".to_string(), None)));
    assert_eq!(
        sign(&["--signer", "s", "--key", "k"]),
        Some(("k".to_string(), Some("s".to_string())))
    );
    assert_eq!(sign(&["--key", "k", "--key", "l", "--signer"]), Some(("l".to_string(), None)));
    assert_eq!(sign(&["--key", "k", "--key"]), None);
    assert_eq!(sign(&["k"]), None);
    assert_eq!(sign(&[]), None);
    let trust = |a: &[&str]| parse_trust_args(&owned(a));
    assert_eq!(trust(&["f"]), Some(("f".to_string(), false)));
    assert_eq!(trust(&["--global", "f"]), Some(("f".to_string(), true)));
    assert_eq!(trust(&["f", "--global", "--global"]), Some(("f".to_string(), true)));
    assert_eq!(trust(&["f", "g"]), None);
    assert_eq!(trust(&["--global"]), None);
}

#[test]
fn known_lines_and_other_keys() {
    assert!(knows_line("x\n  a@x key \r\n", "a@x key"));
    assert!(!knows_line("a@x key2\n", "a@x key"));
    assert!(!knows_line("", "a"));
    assert_eq!(other_keys(&owned(&["a", "b", "a", "c"]), "a"), owned(&["b", "c"]));
}
