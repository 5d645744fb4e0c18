//! The program from end to end, in a world that is kept in memory: files, the
//! configuration and the objects of `git`, keys, and a terminal or none.
use hookguard::program::program;
use hookguard::world::{Exchange, Finished, Halt, Op, Reply, Request};
use std::collections::{BTreeMap, BTreeSet};

/// What a call of the program, or of `git`, came to.
struct Output {
    code: i32,
    out: String,
    err: String,
}

impl Output {
    fn success(&self) -> bool {
        self.code == 0
    }
}

fn out(o: &Output) -> String {
    o.out.clone()
}

fn err(o: &Output) -> String {
    o.err.clone()
}

/// A hash that stands for that of `git`.
fn hash(data: &[u8]) -> String {
    let mut h: u64 = 0xcbf29ce484222325;
    for b in data {
        h = (h ^ (*b as u64)).wrapping_mul(0x100000001b3);
    }
    format!("{:016x}{:08x}", h, data.len())
}

/// A name as `git` lists it: quoted if it holds anything but plain ASCII.
fn as_listed(name: &str) -> String {
    if name.bytes().all(|b| (0x20..0x7f).contains(&b) && b != b'"' && b != b'\\') {
        return name.to_string();
    }
    let mut s = String::from("\"");
    for b in name.bytes() {
        match b {
            b'"' | b'\\' => s.push_str(&format!("\\{}", b as char)),
            b'\t' => s.push_str("\\t"),
            b'\n' => s.push_str("\\n"),
            0x20..=0x7e => s.push(b as char),
            _ => s.push_str(&format!("\\{b:03o}")),
        }
    }
    s.push('"');
    s
}

fn text(bytes: &[u8]) -> String {
    String::from_utf8_lossy(bytes).to_string()
}

struct Sandbox {
    files: BTreeMap<String, Vec<u8>>,
    dirs: BTreeSet<String>,
    executable: BTreeSet<String>,
    global: Vec<(String, String)>,
    local: BTreeMap<String, Vec<(String, String)>>,
    objects: BTreeMap<String, Vec<u8>>,
    staged: BTreeMap<String, Vec<String>>,
    /// What the user will answer, where there is a terminal.
    terminal: Option<Vec<String>>,
    /// What was written to the terminal.
    told: String,
    /// The requests of the last call of the program.
    asked: Vec<(Op, Vec<String>)>,
    env: Vec<(String, String)>,
}

const ROOT: &str = "/sandbox";
const HOME: &str = "/sandbox/home";

impl Sandbox {
    fn new() -> Sandbox {
        let mut sb = Sandbox {
            files: BTreeMap::new(),
            dirs: BTreeSet::new(),
            executable: BTreeSet::new(),
            global: Vec::new(),
            local: BTreeMap::new(),
            objects: BTreeMap::new(),
            staged: BTreeMap::new(),
            terminal: None,
            told: String::new(),
            asked: Vec::new(),
            env: Vec::new(),
        };
        sb.dirs.insert(HOME.to_string());
        sb.global.push(("user.email".to_string(), "test@example.com".to_string()));
        sb
    }

    // ---- files ----

    fn write(&mut self, path: &str, body: &str) {
        self.files.insert(path.to_string(), body.as_bytes().to_vec());
    }

    fn read(&self, path: &str) -> String {
        text(self.files.get(path).expect("file"))
    }

    fn is_there(&self, path: &str) -> bool {
        self.files.contains_key(path) || self.is_dir(path)
    }

    fn remove(&mut self, path: &str) {
        self.files.remove(path).expect("file to remove");
    }

    fn is_dir(&self, path: &str) -> bool {
        let below = format!("{path}/");
        self.dirs.contains(path)
            || self.files.keys().any(|f| f.starts_with(&below))
            || self.dirs.iter().any(|d| d.starts_with(&below))
    }

    fn listing(&self, path: &str) -> (Vec<String>, Vec<String>) {
        let below = format!("{path}/");
        let mut dirs = BTreeSet::new();
        let mut files = Vec::new();
        // Backwards, so that the order is not that of the names.
        for f in self.files.keys().rev() {
            if let Some(rest) = f.strip_prefix(&below) {
                match rest.split_once('/') {
                    Some((d, _)) => {
                        dirs.insert(d.to_string());
                    }
                    None => files.push(rest.to_string()),
                }
            }
        }
        (dirs.into_iter().rev().collect(), files)
    }

    // ---- git ----

    fn repo_of(&self, cwd: &str) -> Option<String> {
        let mut dir = cwd.to_string();
        loop {
            if self.local.contains_key(&dir) {
                return Some(dir);
            }
            match dir.rfind('/') {
                Some(0) | None => return None,
                Some(k) => dir.truncate(k),
            }
        }
    }

    fn template(&self) -> Option<String> {
        self.global.iter().rev().find(|(k, _)| k == "init.templateDir").map(|(_, v)| v.clone())
    }

    fn init(&mut self, root: &str) {
        self.dirs.insert(root.to_string());
        self.local.insert(root.to_string(), Vec::new());
        if let Some(dir) = self.template() {
            let below = format!("{dir}/");
            let copies: Vec<(String, Vec<u8>)> = self
                .files
                .iter()
                .filter(|(f, _)| f.starts_with(&below))
                .map(|(f, b)| (format!("{root}/.git/{}", &f[below.len()..]), b.clone()))
                .collect();
            self.files.extend(copies);
        }
    }

    fn config(&mut self, cwd: &str, args: &[String]) -> (i32, String) {
        let scope = args.first().map(String::as_str).unwrap_or("");
        let repo = self.repo_of(cwd);
        if scope != "--local" && scope != "--global" {
            let found = repo
                .and_then(|r| self.local[&r].iter().rev().find(|(k, _)| k == scope).cloned())
                .or_else(|| self.global.iter().rev().find(|(k, _)| k == scope).cloned());
            return match found {
                Some((_, v)) => (0, format!("{v}\n")),
                None => (1, String::new()),
            };
        }
        let list = if scope == "--global" {
            &mut self.global
        } else {
            match repo {
                Some(r) => self.local.get_mut(&r).expect("repository"),
                None => return (128, String::new()),
            }
        };
        let rest: Vec<&str> = args[1..].iter().map(String::as_str).collect();
        match rest[..] {
            ["--add", key, value] => {
                list.push((key.to_string(), value.to_string()));
                (0, String::new())
            }
            ["--get-all", key] => {
                let found: String =
                    list.iter().filter(|(k, _)| k == key).map(|(_, v)| format!("{v}\n")).collect();
                (if found.is_empty() { 1 } else { 0 }, found)
            }
            ["--unset-all", key] | ["--unset", key] => {
                let before = list.len();
                list.retain(|(k, _)| k != key);
                (if list.len() == before { 5 } else { 0 }, String::new())
            }
            [key, value] => {
                list.retain(|(k, _)| k != key);
                list.push((key.to_string(), value.to_string()));
                (0, String::new())
            }
            [key] => match list.iter().rev().find(|(k, _)| k == key) {
                Some((_, v)) => (0, format!("{v}\n")),
                None => (1, String::new()),
            },
            _ => panic!("git config {args:?}"),
        }
    }

    fn git_call(&mut self, cwd: &str, input: Option<&str>, args: &[String]) -> (i32, String) {
        let words: Vec<&str> = args.iter().map(String::as_str).collect();
        match words[..] {
            ["config", ..] => self.config(cwd, &args[1..]),
            ["rev-parse", "--show-toplevel"] => match self.repo_of(cwd) {
                Some(r) => (0, format!("{r}\n")),
                None => (128, String::new()),
            },
            ["rev-parse", "--git-path", "hooks"] => match self.repo_of(cwd) {
                Some(_) => (0, ".git/hooks\n".to_string()),
                None => (128, String::new()),
            },
            ["hash-object", "--stdin"] => {
                (0, format!("{}\n", hash(input.expect("input").as_bytes())))
            }
            ["hash-object", "-w", path] => match self.files.get(path).cloned() {
                Some(b) => {
                    let h = hash(&b);
                    self.objects.insert(h.clone(), b);
                    (0, format!("{h}\n"))
                }
                None => (128, String::new()),
            },
            ["hash-object", path] => match self.files.get(path) {
                Some(b) => (0, format!("{}\n", hash(b))),
                None => (128, String::new()),
            },
            ["--no-pager", "diff", old, new] => {
                let a = text(self.objects.get(old).expect("old object"));
                let b = text(self.objects.get(new).expect("new object"));
                let mut shown = String::new();
                for l in a.lines().filter(|l| !b.lines().any(|m| m == *l)) {
                    shown.push_str(&format!("-{l}\n"));
                }
                for l in b.lines().filter(|l| !a.lines().any(|m| m == *l)) {
                    shown.push_str(&format!("+{l}\n"));
                }
                (0, shown)
            }
            ["diff", "--cached", "--name-only", "--diff-filter=ACMR"] => {
                let list = self.staged.get(cwd).cloned().unwrap_or_default();
                (0, list.iter().map(|f| format!("{}\n", as_listed(f))).collect())
            }
            _ => panic!("git {args:?}"),
        }
    }

    // ---- ssh-keygen ----

    fn public(&self, key: &str) -> Option<String> {
        let secret = self.files.get(key)?;
        Some(format!("ssh-ed25519 {} me@here", hash(secret)))
    }

    fn print_of(pubkey: &str) -> Option<String> {
        let body = pubkey.split_whitespace().nth(1)?;
        Some(format!("256 SHA256:{} me@here (ED25519)\n", hash(body.as_bytes())))
    }

    fn ssh_call(&mut self, input: Option<&str>, args: &[String]) -> (i32, String, String) {
        let words: Vec<&str> = args.iter().map(String::as_str).collect();
        let content = input.unwrap_or("");
        match words[..] {
            ["-lf", key] => match self.public(key).and_then(|k| Self::print_of(&k)) {
                Some(p) => (0, p, String::new()),
                None => (255, String::new(), "no key\n".to_string()),
            },
            ["-y", "-f", key] => match self.public(key) {
                Some(k) => (0, format!("{k}\n"), String::new()),
                None => (255, String::new(), "no key\n".to_string()),
            },
            ["-Y", "sign", "-f", key, "-n", space] => match self.public(key) {
                Some(k) => {
                    let body = k.split_whitespace().nth(1).expect("key");
                    (0, format!("SIG {body} {space} {}\n", hash(content.as_bytes())), String::new())
                }
                None => (255, String::new(), format!("Couldn't load {key}\n")),
            },
            ["-Y", "verify", "-f", signers, "-I", principal, "-n", space, "-s", sig] => {
                let listed = self.read(signers);
                let good = listed.lines().find_map(|l| {
                    let w: Vec<&str> = l.split_whitespace().collect();
                    let signed = w.len() >= 3
                        && w[0].split(',').any(|p| p == principal)
                        && self.read(sig)
                            == format!("SIG {} {space} {}\n", w[2], hash(content.as_bytes()));
                    signed.then(|| hash(w[2].as_bytes()))
                });
                match good {
                    Some(key) => {
                        let said = format!(
                            "Good \"{space}\" signature for {principal} with ED25519 key SHA256:{key}\n"
                        );
                        (0, said, String::new())
                    }
                    None => (255, "Could not verify signature.\n".to_string(), String::new()),
                }
            }
            _ => panic!("ssh-keygen {args:?}"),
        }
    }

    // ---- sh ----

    fn shell(&mut self, root: &str, command: &str, o: &mut Output) -> i32 {
        for line in command.lines() {
            let words: Vec<&str> = line.split_whitespace().collect();
            match words[..] {
                [] => {}
                ["true"] => {}
                ["exit", code] => return code.parse().expect("exit code"),
                ["touch", file] => self.write(&format!("{root}/{file}"), ""),
                ["echo", word, ">", file] => {
                    let body = format!("{}\n", word.trim_matches('\''));
                    self.write(&format!("{root}/{file}"), &body);
                }
                ["echo", word] => o.out.push_str(&format!("{word}\n")),
                [script] if script.starts_with(".githooks/") => {
                    let path = format!("{root}/{script}");
                    if !self.executable.contains(&path) {
                        return 126;
                    }
                    let body = self.read(&path);
                    return self.shell(root, &body, o);
                }
                _ if line.starts_with('#') => {}
                _ => panic!("sh: {line}"),
            }
        }
        0
    }

    // ---- the program ----

    fn perform(&mut self, cwd: &str, r: &Request, o: &mut Output) -> Reply {
        let w = &r.words;
        fn ran(code: i32, stdout: String, stderr: String) -> Reply {
            Reply::Ran(Ok(Finished {
                code: Some(code),
                fed: true,
                stdout: stdout.into_bytes(),
                stderr: stderr.into_bytes(),
            }))
        }
        match r.op {
            Op::Git | Op::GitCapture => {
                let (code, s) = self.git_call(cwd, None, w);
                ran(code, s, String::new())
            }
            Op::GitCaptureIn => {
                let (code, s) = self.git_call(&w[0], None, &w[1..]);
                ran(code, s, String::new())
            }
            Op::GitFeed => {
                let (code, s) = self.git_call(cwd, Some(w[0].as_str()), &w[1..]);
                ran(code, s, String::new())
            }
            Op::SshCapture => {
                let (code, s, e) = self.ssh_call(None, w);
                ran(code, s, e)
            }
            Op::SshFeed => {
                let (code, s, e) = self.ssh_call(Some(w[0].as_str()), &w[1..]);
                ran(code, s, e)
            }
            Op::Shell => {
                let code = self.shell(&w[0], &w[1], o);
                ran(code, String::new(), String::new())
            }
            Op::ReadText => Reply::Text(self.files.get(&w[0]).map(|b| text(b))),
            Op::WriteText => {
                self.write(&w[0], &w[1]);
                Reply::Done
            }
            Op::AppendText => {
                let mut body = self.files.get(&w[0]).cloned().unwrap_or_default();
                body.extend_from_slice(w[1].as_bytes());
                self.files.insert(w[0].clone(), body);
                Reply::Done
            }
            Op::CopyFile => {
                let body = self.files.get(&w[0]).cloned().expect("file to copy");
                self.files.insert(w[1].clone(), body);
                Reply::Done
            }
            Op::MakeExecutable => {
                self.executable.insert(w[0].clone());
                Reply::Done
            }
            Op::CreateDirs => {
                self.dirs.insert(w[0].clone());
                Reply::Done
            }
            Op::RemoveDirs => {
                let below = format!("{}/", w[0]);
                self.files.retain(|f, _| !f.starts_with(&below));
                self.dirs.retain(|d| d != &w[0] && !d.starts_with(&below));
                Reply::Done
            }
            Op::IsFile => Reply::Flag(self.files.contains_key(&w[0])),
            Op::IsDir => Reply::Flag(self.is_dir(&w[0])),
            Op::Exists => Reply::Flag(self.is_there(&w[0])),
            Op::ListDir => {
                let (dirs, files) = self.listing(&w[0]);
                Reply::Listing(dirs, files)
            }
            Op::EnvVar => Reply::Text(
                self.env.iter().find(|(k, _)| k == &w[0]).map(|(_, v)| v.clone()),
            ),
            Op::CurrentDir => Reply::Text(Some(cwd.to_string())),
            Op::Print => {
                o.out.push_str(&w[0]);
                Reply::Done
            }
            Op::Report => {
                o.err.push_str(&w[0]);
                Reply::Done
            }
            Op::OpenTerminal => {
                assert_eq!(w, &vec!["/dev/tty".to_string(), "/dev/tty".to_string()]);
                Reply::Flag(self.terminal.is_some())
            }
            Op::TellTerminal => {
                self.told.push_str(&w[0]);
                Reply::Done
            }
            Op::HearTerminal => {
                Reply::Text(self.terminal.as_mut().map(|lines| lines.remove(0)))
            }
        }
    }

    fn hooks_in_env(&mut self, args: &[&str], cwd: &str, extra: &[(&str, &str)]) -> Output {
        let args: Vec<String> = args.iter().map(|a| a.to_string()).collect();
        self.env = vec![("HOME".to_string(), HOME.to_string())];
        for (k, v) in extra {
            self.env.push((k.to_string(), v.to_string()));
        }
        self.asked = Vec::new();
        let mut o = Output { code: 0, out: String::new(), err: String::new() };
        let mut log: Vec<Exchange> = Vec::new();
        loop {
            match program(&args, &log, false) {
                Halt::Ask(request) => {
                    self.asked.push((request.op, request.words.clone()));
                    let reply = self.perform(cwd, &request, &mut o);
                    log.push(Exchange { request, reply });
                }
                Halt::Exit(code) => {
                    o.code = code;
                    return o;
                }
                Halt::Abort(reason) => {
                    o.code = 101;
                    o.err.push_str(&reason);
                    return o;
                }
                Halt::Astray => panic!("astray after {} exchanges", log.len()),
            }
        }
    }

    fn hooks_in(&mut self, args: &[&str], cwd: &str) -> Output {
        self.hooks_in_env(args, cwd, &[])
    }

    // ---- what a user of git does ----

    /// Runs a hook of a repository, as `git` does.
    fn fire(&mut self, work: &str, hook: &str, args: &[&str], o: &mut Output) -> i32 {
        let path = format!("{work}/.git/hooks/{hook}");
        if !self.files.contains_key(&path) {
            return 0;
        }
        let body = self.read(&path);
        let call = format!("exec git-hooks run {hook} \"$@\"\n");
        if !body.ends_with(&call) {
            return 0;
        }
        let mut words = vec!["run", hook];
        words.extend_from_slice(args);
        let r = self.hooks_in(&words, work);
        o.out.push_str(&r.out);
        o.err.push_str(&r.err);
        r.code
    }

    fn install(&mut self) {
        let o = self.hooks_in(&["install"], HOME);
        assert!(o.success(), "install failed: {}", err(&o));
    }

    fn make_origin(&mut self, toml: &str, scripts: &[(&str, &str)]) -> String {
        let origin = format!("{ROOT}/origin");
        self.init(&origin);
        self.write(&format!("{origin}/.githooks.toml"), toml);
        for (name, body) in scripts {
            self.write_script(&format!("{origin}/{name}"), body);
        }
        origin
    }

    fn clone_with_output(&mut self, origin: &str, name: &str) -> (String, Output) {
        let dest = format!("{ROOT}/{name}");
        self.init(&dest);
        let below = format!("{origin}/");
        let git = format!("{origin}/.git/");
        let copies: Vec<(String, Vec<u8>)> = self
            .files
            .iter()
            .filter(|(f, _)| f.starts_with(&below) && !f.starts_with(&git))
            .map(|(f, b)| (f[below.len()..].to_string(), b.clone()))
            .collect();
        for (f, b) in copies {
            let from = format!("{origin}/{f}");
            let to = format!("{dest}/{f}");
            if self.executable.contains(&from) {
                self.executable.insert(to.clone());
            }
            self.files.insert(to, b);
        }
        let mut o = Output { code: 0, out: String::new(), err: String::new() };
        o.code = self.fire(&dest, "post-checkout", &["0000000", "1111111", "1"], &mut o);
        (dest, o)
    }

    fn clone(&mut self, origin: &str, name: &str) -> String {
        let (dest, o) = self.clone_with_output(origin, name);
        assert!(o.success(), "clone failed: {}", err(&o));
        dest
    }

    fn stage(&mut self, work: &str, fname: &str, content: &str) {
        self.write(&format!("{work}/{fname}"), content);
        self.staged.entry(work.to_string()).or_default().push(fname.to_string());
    }

    fn commit(&mut self, work: &str) -> Output {
        let mut o = Output { code: 0, out: String::new(), err: String::new() };
        for hook in ["pre-commit", "prepare-commit-msg", "commit-msg"] {
            if self.fire(work, hook, &[".git/COMMIT_EDITMSG"], &mut o) != 0 {
                o.code = 1;
                return o;
            }
        }
        self.staged.remove(work);
        self.fire(work, "post-commit", &[], &mut o);
        o
    }

    fn keygen(&mut self) -> String {
        let key = format!("{ROOT}/signing_key");
        self.write(&key, "a secret");
        key
    }

    fn fingerprint(&self, key: &str) -> String {
        let shown = Self::print_of(&self.public(key).expect("key")).expect("fingerprint");
        shown.split_whitespace().nth(1).expect("second word").to_string()
    }

    fn sign_origin(&mut self, origin: &str, key: &str, signer: &str) {
        let o = self.hooks_in(&["sign", "--key", key, "--signer", signer], origin);
        assert!(o.success(), "sign failed: {}", err(&o));
    }

    fn write_policy(&mut self, body: &str) {
        self.write(&format!("{HOME}/.config/git-hooks/policy.toml"), body);
    }

    fn write_script(&mut self, path: &str, body: &str) {
        self.write(path, body);
        self.executable.insert(path.to_string());
    }

    fn local_value(&self, work: &str, key: &str) -> Option<String> {
        self.local[work].iter().rev().find(|(k, _)| k == key).map(|(_, v)| v.clone())
    }

    fn local_values(&self, work: &str, key: &str) -> Vec<String> {
        self.local[work].iter().filter(|(k, _)| k == key).map(|(_, v)| v.clone()).collect()
    }
}

// install -> clone -> no terminal -> hooks skipped, commit passes.
#[test]
fn clone_no_tty_skips_and_commit_passes() {
    let mut sb = Sandbox::new();
    sb.install();
    // A hook that WOULD fail, to prove it never ran.
    let origin = sb.make_origin("[hooks]\npre-commit = [\"exit 1\"]\n", &[]);
    let work = sb.clone(&origin, "work");

    sb.stage(&work, "file.txt", "hello\n");
    let commit = sb.commit(&work);

    assert!(
        commit.success(),
        "commit should pass when hooks are skipped: {}",
        err(&commit)
    );
    assert!(
        err(&commit).contains("skipping"),
        "expected skip notice, got: {}",
        err(&commit)
    );
}

// explicit accept -> failing hook blocks commit.
#[test]
fn accept_then_failing_hook_blocks_commit() {
    let mut sb = Sandbox::new();
    sb.install();
    let origin = sb.make_origin("[hooks]\npre-commit = [\"exit 1\"]\n", &[]);
    let work = sb.clone(&origin, "work");

    let acc = sb.hooks_in(&["accept"], &work);
    assert!(acc.success(), "accept failed: {}", err(&acc));

    sb.stage(&work, "file.txt", "hello\n");
    let commit = sb.commit(&work);

    assert!(
        !commit.success(),
        "commit should be blocked by failing hook"
    );
    assert!(
        err(&commit).contains("FAILED"),
        "expected FAILED notice, got: {}",
        err(&commit)
    );
}

// .githooks.toml change -> consent invalidated (status reports it, hook skipped
// without a terminal).
#[test]
fn toml_change_invalidates_consent() {
    let mut sb = Sandbox::new();
    sb.install();
    let origin = sb.make_origin("[hooks]\npre-commit = [\"touch ran.marker\"]\n", &[]);
    let work = sb.clone(&origin, "work");
    let marker = format!("{work}/ran.marker");

    sb.hooks_in(&["accept"], &work);
    sb.stage(&work, "a.txt", "1\n");
    let c1 = sb.commit(&work);
    assert!(c1.success(), "c1 failed: {}", err(&c1));
    assert!(sb.is_there(&marker), "hook should have run on c1");

    // Change the toml — consent must no longer match.
    sb.write(
        &format!("{work}/.githooks.toml"),
        "[hooks]\npre-commit = [\"touch ran.marker\", \"true\"]\n",
    );

    let st = sb.hooks_in(&["status"], &work);
    assert!(
        out(&st).contains("changed") && out(&st).contains("re-prompt"),
        "status should report the change: {}",
        out(&st)
    );

    sb.remove(&marker);
    sb.stage(&work, "b.txt", "2\n");
    let c2 = sb.commit(&work);
    assert!(c2.success(), "c2 should pass (hook skipped): {}", err(&c2));
    assert!(
        !sb.is_there(&marker),
        "hook must be skipped after toml change without TTY"
    );
}

// .githooks/ script change (toml untouched) -> consent invalidated.
#[test]
fn script_change_invalidates_consent() {
    let mut sb = Sandbox::new();
    sb.install();
    let origin = sb.make_origin(
        "[hooks]\npre-commit = [\".githooks/hook.sh\"]\n",
        &[(".githooks/hook.sh", "#!/bin/sh\ntouch ran.marker\n")],
    );
    let work = sb.clone(&origin, "work");
    let marker = format!("{work}/ran.marker");

    sb.hooks_in(&["accept"], &work);
    sb.stage(&work, "a.txt", "1\n");
    let c1 = sb.commit(&work);
    assert!(c1.success(), "c1 failed: {}", err(&c1));
    assert!(sb.is_there(&marker), "script should have run on c1");

    // Change ONLY the script; the toml is untouched.
    sb.write_script(
        &format!("{work}/.githooks/hook.sh"),
        "#!/bin/sh\n# edited\ntouch ran.marker\n",
    );

    let st = sb.hooks_in(&["status"], &work);
    assert!(
        out(&st).contains("changed") && out(&st).contains("re-prompt"),
        "status should report the script change: {}",
        out(&st)
    );

    sb.remove(&marker);
    sb.stage(&work, "b.txt", "2\n");
    let c2 = sb.commit(&work);
    assert!(c2.success(), "c2 should pass (hook skipped): {}", err(&c2));
    assert!(
        !sb.is_there(&marker),
        "script must be skipped after .githooks/ change without TTY"
    );
}

// decline -> silent skip.
#[test]
fn decline_silently_skips() {
    let mut sb = Sandbox::new();
    sb.install();
    let origin = sb.make_origin("[hooks]\npre-commit = [\"exit 1\"]\n", &[]);
    let work = sb.clone(&origin, "work");

    let dec = sb.hooks_in(&["decline"], &work);
    assert!(dec.success(), "decline failed: {}", err(&dec));

    sb.stage(&work, "file.txt", "hello\n");
    let commit = sb.commit(&work);

    assert!(
        commit.success(),
        "declined hooks must not block commit: {}",
        err(&commit)
    );
    assert!(
        !err(&commit).contains("FAILED"),
        "declined hook must not run: {}",
        err(&commit)
    );
}

// `git hooks add` auto-accepts for the author.
#[test]
fn add_auto_accepts_for_author() {
    let mut sb = Sandbox::new();
    let repo = format!("{ROOT}/repo");
    sb.init(&repo);

    let a = sb.hooks_in(&["add", "pre-commit", "true"], &repo);
    assert!(a.success(), "add failed: {}", err(&a));

    let st = sb.hooks_in(&["status"], &repo);
    assert!(
        out(&st).contains("accepted"),
        "author should be auto-accepted: {}",
        out(&st)
    );
}

// A script under .githooks/ executes and its exit code propagates.
#[test]
fn script_executes_and_exit_code_propagates() {
    let mut sb = Sandbox::new();
    let repo = format!("{ROOT}/repo");
    sb.init(&repo);

    sb.write(
        &format!("{repo}/.githooks.toml"),
        "[hooks]\npre-commit = [\".githooks/boom.sh\"]\n",
    );
    sb.write_script(
        &format!("{repo}/.githooks/boom.sh"),
        "#!/bin/sh\necho SCRIPT_RAN\nexit 7\n",
    );

    let acc = sb.hooks_in(&["accept"], &repo);
    assert!(acc.success(), "accept failed: {}", err(&acc));

    // Invoke the runner directly to observe the propagated exit code.
    let run = sb.hooks_in(&["run", "pre-commit"], &repo);
    assert_eq!(
        Some(run.code),
        Some(7),
        "script exit code should propagate; stderr: {}",
        err(&run)
    );
    assert!(
        out(&run).contains("SCRIPT_RAN"),
        "script stdout should surface: {} / {}",
        out(&run),
        err(&run)
    );
}

// `git hooks init` copies shims into an already-cloned repo but never clobbers
// a foreign hook.
#[test]
fn init_adopts_shims_and_refuses_to_clobber() {
    let mut sb = Sandbox::new();
    let repo = format!("{ROOT}/repo");
    // init BEFORE install, so no templateDir is set and the repo has no shims.
    sb.init(&repo);
    sb.install();

    // A foreign pre-commit hook that must be left untouched.
    let hooks = format!("{repo}/.git/hooks");
    let foreign = "#!/bin/sh\necho FOREIGN\n";
    sb.write_script(&format!("{hooks}/pre-commit"), foreign);

    let o = sb.hooks_in(&["init"], &repo);
    assert!(o.success(), "init failed: {}", err(&o));

    // pre-commit is still the foreign hook…
    assert_eq!(
        sb.read(&format!("{hooks}/pre-commit")),
        foreign,
        "foreign pre-commit must not be overwritten"
    );
    assert!(
        out(&o).contains("skipped") && out(&o).contains("pre-commit"),
        "init should report the skip: {}",
        out(&o)
    );
    // …but a hook with no conflict got our shim.
    let cm = sb.read(&format!("{hooks}/commit-msg"));
    assert!(
        cm.contains("git-hooks shim"),
        "commit-msg should be our shim: {cm}"
    );
}

// glob + {staged_files}: runs only when a matching file is staged, and the
// command receives the staged filename; skipped when only non-matching files
// are staged.
#[test]
fn glob_and_staged_files_substitution() {
    let mut sb = Sandbox::new();
    sb.install();
    let toml = "[hooks]\npre-commit = [{ run = \"echo {staged_files} > got.txt\", glob = \"*.rs\" }]\n";
    let origin = sb.make_origin(toml, &[]);
    let work = sb.clone(&origin, "work");
    sb.hooks_in(&["accept"], &work);

    // Stage a .rs file → the command runs and receives it.
    sb.stage(&work, "lib.rs", "fn main() {}\n");
    let c1 = sb.commit(&work);
    assert!(c1.success(), "rs commit failed: {}", err(&c1));
    let got = sb.read(&format!("{work}/got.txt"));
    assert!(
        got.contains("lib.rs"),
        "command should receive the staged .rs file: {got}"
    );

    // Stage only a .md file → glob has no match, command is skipped.
    sb.remove(&format!("{work}/got.txt"));
    sb.stage(&work, "README.md", "hi\n");
    let c2 = sb.commit(&work);
    assert!(c2.success(), "md commit should pass: {}", err(&c2));
    assert!(
        !sb.is_there(&format!("{work}/got.txt")),
        "command must be skipped when no staged file matches the glob"
    );
    assert!(
        err(&c2).contains("no matching staged files"),
        "expected skip notice: {}",
        err(&c2)
    );
}

// GIT_HOOKS_CONSENT overrides stored consent for one invocation, is not
// persisted, and the pinned form only applies on a matching hash.
#[test]
fn env_consent_override() {
    let mut sb = Sandbox::new();
    sb.install();
    let origin = sb.make_origin("[hooks]\npre-commit = [\"touch ran.marker\"]\n", &[]);
    let work = sb.clone(&origin, "work");
    let marker = format!("{work}/ran.marker");

    // No stored consent + accept env → hook runs.
    let o1 = sb.hooks_in_env(&["run", "pre-commit"], &work, &[("GIT_HOOKS_CONSENT", "accept")]);
    assert!(o1.success(), "run failed: {}", err(&o1));
    assert!(sb.is_there(&marker), "accept env should run the hook");

    // The override was not persisted.
    let st = sb.hooks_in(&["status"], &work);
    assert!(
        out(&st).contains("no decision yet"),
        "env override must not persist consent: {}",
        out(&st)
    );

    // decline env → hook skipped.
    sb.remove(&marker);
    let o2 = sb.hooks_in_env(&["run", "pre-commit"], &work, &[("GIT_HOOKS_CONSENT", "decline")]);
    assert!(o2.success());
    assert!(!sb.is_there(&marker), "decline env should skip the hook");

    // accept:<wrong-hash> → does NOT enable; falls back to no-TTY skip.
    let o3 = sb.hooks_in_env(
        &["run", "pre-commit"],
        &work,
        &[("GIT_HOOKS_CONSENT", "accept:deadbeef")],
    );
    assert!(o3.success());
    assert!(!sb.is_there(&marker), "wrong-hash pin must not enable the hook");
    assert!(
        err(&o3).contains("skipping"),
        "wrong-hash pin should fall back to no-tty skip: {}",
        err(&o3)
    );
}

// The full hook list is wired into `add` validation.
#[test]
fn add_accepts_new_hook_name() {
    let mut sb = Sandbox::new();
    let repo = format!("{ROOT}/repo");
    sb.init(&repo);

    let a = sb.hooks_in(&["add", "pre-merge-commit", "true"], &repo);
    assert!(a.success(), "add pre-merge-commit failed: {}", err(&a));

    let st = sb.hooks_in(&["status"], &repo);
    assert!(
        out(&st).contains("pre-merge-commit"),
        "status should list the new hook: {}",
        out(&st)
    );
}

// A repo signed by a key pre-trusted in the org policy file auto-accepts on
// clone with no prompt and no terminal.
#[test]
fn signed_and_policy_trusted_auto_accepts() {
    let mut sb = Sandbox::new();
    sb.install();
    let key = sb.keygen();
    let fp = sb.fingerprint(&key);
    let origin = sb.make_origin("[hooks]\npre-commit = [\"touch ran.marker\"]\n", &[]);
    sb.sign_origin(&origin, &key, "maint@example.com");
    // Org pre-seeds the trusted key before the developer ever clones.
    sb.write_policy(&format!("trusted_keys = [\"{fp}\"]\n"));

    // Clone fires post-checkout, which auto-accepts with no tty and no prompt.
    let (work, cl) = sb.clone_with_output(&origin, "work");
    assert!(cl.success(), "clone failed: {}", err(&cl));
    assert!(
        err(&cl).contains("auto-accepted"),
        "expected prompt-less auto-accept notice on clone: {}",
        err(&cl)
    );

    let st = sb.hooks_in(&["status"], &work);
    assert!(
        out(&st).contains("accepted") && out(&st).contains("trusted"),
        "clone should be auto-accepted and key trusted: {}",
        out(&st)
    );

    // And the hook actually runs on commit (consent already recorded, no prompt).
    sb.stage(&work, "a.txt", "1\n");
    let c = sb.commit(&work);
    assert!(c.success(), "commit failed: {}", err(&c));
    assert!(
        sb.is_there(&format!("{work}/ran.marker")),
        "trusted-signed hook should run: {}",
        err(&c)
    );
}

// Trusting the key in the repository: afterwards the signed repo auto-accepts on
// the next hook without a terminal.
#[test]
fn trust_key_locally_then_auto_accepts() {
    let mut sb = Sandbox::new();
    sb.install();
    let key = sb.keygen();
    let fp = sb.fingerprint(&key);
    let origin = sb.make_origin("[hooks]\npre-commit = [\"touch ran.marker\"]\n", &[]);
    sb.sign_origin(&origin, &key, "maint@example.com");
    let work = sb.clone(&origin, "work");

    let t = sb.hooks_in(&["trust", &fp], &work);
    assert!(t.success(), "trust failed: {}", err(&t));

    sb.stage(&work, "a.txt", "1\n");
    let c = sb.commit(&work);
    assert!(c.success(), "commit failed: {}", err(&c));
    assert!(
        sb.is_there(&format!("{work}/ran.marker")),
        "locally-trusted signed hook should auto-run: {}",
        err(&c)
    );
}

// Tampering with a .githooks/ script after signing invalidates the signature.
// Even with the key trusted, an invalid signature never auto-accepts; with no
// terminal the hook is skipped, and status reports INVALID.
#[test]
fn tampered_signature_never_auto_accepts() {
    let mut sb = Sandbox::new();
    sb.install();
    let key = sb.keygen();
    let fp = sb.fingerprint(&key);
    let origin = sb.make_origin(
        "[hooks]\npre-commit = [\".githooks/hook.sh\"]\n",
        &[(".githooks/hook.sh", "#!/bin/sh\ntouch ran.marker\n")],
    );
    sb.sign_origin(&origin, &key, "maint@example.com");
    let work = sb.clone(&origin, "work");
    sb.hooks_in(&["trust", &fp], &work);

    // Tamper AFTER signing: the signed content no longer matches.
    sb.write_script(
        &format!("{work}/.githooks/hook.sh"),
        "#!/bin/sh\n# injected\ntouch ran.marker\n",
    );

    let st = sb.hooks_in(&["status"], &work);
    assert!(
        out(&st).contains("INVALID"),
        "status should report INVALID: {}",
        out(&st)
    );

    sb.stage(&work, "a.txt", "1\n");
    let c = sb.commit(&work);
    assert!(
        c.success(),
        "commit should pass (hook skipped): {}",
        err(&c)
    );
    assert!(
        !sb.is_there(&format!("{work}/ran.marker")),
        "tampered signature must not auto-accept even with a trusted key"
    );
}

// An unsigned repo reports `unsigned` and its consent flow is unchanged.
#[test]
fn unsigned_repo_status_reports_unsigned() {
    let mut sb = Sandbox::new();
    sb.install();
    let origin = sb.make_origin("[hooks]\npre-commit = [\"true\"]\n", &[]);
    let work = sb.clone(&origin, "work");
    let st = sb.hooks_in(&["status"], &work);
    assert!(
        out(&st).contains("signature: unsigned"),
        "unsigned repo should report unsigned: {}",
        out(&st)
    );
}

// Org policy `default = "decline"` skips hooks in an unsigned/untrusted repo
// with no prompt and no terminal — a failing hook never runs, the commit passes.
#[test]
fn policy_default_decline_skips_silently() {
    let mut sb = Sandbox::new();
    sb.install();
    let origin = sb.make_origin("[hooks]\npre-commit = [\"exit 1\"]\n", &[]);
    let work = sb.clone(&origin, "work");
    sb.write_policy("default = \"decline\"\n");

    sb.stage(&work, "a.txt", "1\n");
    let c = sb.commit(&work);
    assert!(
        c.success(),
        "decline policy must skip the failing hook: {}",
        err(&c)
    );
    assert!(
        err(&c).contains("decline"),
        "expected a policy-decline notice: {}",
        err(&c)
    );
    assert!(
        !err(&c).contains("FAILED"),
        "hook must not run under decline policy: {}",
        err(&c)
    );
}

// `git hooks diff` shows what changed since the last accept.
#[test]
fn diff_shows_change_since_accept() {
    let mut sb = Sandbox::new();
    sb.install();
    let origin = sb.make_origin(
        "[hooks]\npre-commit = [\".githooks/hook.sh\"]\n",
        &[(".githooks/hook.sh", "#!/bin/sh\necho ORIGINAL\n")],
    );
    let work = sb.clone(&origin, "work");
    sb.hooks_in(&["accept"], &work);

    sb.write_script(&format!("{work}/.githooks/hook.sh"), "#!/bin/sh\necho CHANGED\n");
    let d = sb.hooks_in(&["diff"], &work);
    assert!(d.success(), "diff failed: {}", err(&d));
    assert!(
        out(&d).contains("CHANGED"),
        "diff should contain the change: {}",
        out(&d)
    );
    assert!(
        out(&d).contains("signature: unsigned"),
        "diff should show the signature status: {}",
        out(&d)
    );
}

// ---------------------------------------------------------------------------
// The prompt.
// ---------------------------------------------------------------------------

#[test]
fn first_prompt_shows_commands_scripts_and_references() {
    let mut sb = Sandbox::new();
    sb.install();
    let toml = "[hooks]\npre-commit = [\"true\", { run = \"true\", glob = \"*.rs\" }, \"./tools/lint.sh x\"]\n";
    let origin = sb.make_origin(toml, &[(".githooks/a/b.sh", "x\n"), (".githooks/a.sh", "y\n")]);
    sb.write(&format!("{origin}/tools/lint.sh"), "z\n");
    let work = sb.clone(&origin, "work");
    sb.terminal = Some(vec!["n\n".to_string()]);
    let o = sb.hooks_in(&["run", "pre-commit"], &work);
    assert_eq!(o.code, 0);
    assert_eq!(
        sb.told,
        "\nthis repository wants to run the following hooks (.githooks.toml):\n\n\
         [pre-commit]\n  true\n  true  (glob: *.rs)\n  ./tools/lint.sh x\n\
         \ncovered scripts under .githooks/:\n  .githooks/a/b.sh\n  .githooks/a.sh\n\
         \nthese commands will run on your machine during git operations.\n\
         note: these commands reference repo files whose content is NOT covered by this consent:\n  tools/lint.sh\n\
         accept? [y/N] \n\
         declined. change your mind anytime: `git hooks accept` / `git hooks decline`.\n"
    );
    let st = sb.hooks_in(&["status"], &work);
    assert!(out(&st).contains("\nstatus: declined\n"));
    // The decline is remembered: nobody is asked again.
    sb.told.clear();
    let again = sb.hooks_in(&["run", "pre-commit"], &work);
    assert_eq!((again.code, again.err.as_str(), sb.told.as_str()), (0, "", ""));
}

#[test]
fn yes_on_the_terminal_runs_and_is_remembered() {
    for answer in ["y", "Y\n", " yes \n"] {
        let mut sb = Sandbox::new();
        sb.install();
        let origin = sb.make_origin("[hooks]\npre-commit = [\"touch ran.marker\"]\n", &[]);
        let work = sb.clone(&origin, "work");
        sb.terminal = Some(vec![answer.to_string()]);
        let o = sb.hooks_in(&["run", "pre-commit"], &work);
        assert_eq!(o.code, 0);
        assert!(sb.is_there(&format!("{work}/ran.marker")));
        assert!(sb.told.ends_with(
            "accepted. change your mind anytime: `git hooks accept` / `git hooks decline`.\n"
        ));
        sb.terminal = None;
        sb.remove(&format!("{work}/ran.marker"));
        sb.hooks_in(&["run", "pre-commit"], &work);
        assert!(sb.is_there(&format!("{work}/ran.marker")));
    }
}

#[test]
fn other_answers_decline() {
    for answer in ["", "\n", "n\n", "YES\n", "yeah\n", "t\n", "T\n"] {
        let mut sb = Sandbox::new();
        sb.install();
        let origin = sb.make_origin("[hooks]\npre-commit = [\"touch ran.marker\"]\n", &[]);
        let work = sb.clone(&origin, "work");
        sb.terminal = Some(vec![answer.to_string()]);
        let o = sb.hooks_in(&["run", "pre-commit"], &work);
        assert_eq!(o.code, 0);
        assert!(!sb.is_there(&format!("{work}/ran.marker")), "answer {answer:?}");
        assert!(sb.objects.is_empty());
        assert!(sb.local_values(&work, "hooks.consentManifest").is_empty());
    }
}

#[test]
fn trusting_the_key_on_the_terminal() {
    let mut sb = Sandbox::new();
    sb.install();
    let key = sb.keygen();
    let fp = sb.fingerprint(&key);
    let origin = sb.make_origin("[hooks]\npre-commit = [\"touch ran.marker\"]\n", &[]);
    sb.sign_origin(&origin, &key, "maint@example.com");
    let work = sb.clone(&origin, "work");
    sb.terminal = Some(vec!["t\n".to_string()]);
    let o = sb.hooks_in(&["run", "pre-commit"], &work);
    assert_eq!(o.code, 0);
    assert!(sb.told.starts_with(&format!(
        "\nsigned by maint@example.com, key {fp}\n\nthis repository wants to run"
    )));
    assert!(sb.told.contains("[y]es once / [t]rust key / [N]o \n"));
    assert!(sb.is_there(&format!("{work}/ran.marker")));
    assert_eq!(sb.local_values(&work, "hooks.trustedKey"), vec![fp.clone()]);
    // The maintainer changes the hooks and signs again: no terminal is needed.
    sb.terminal = None;
    sb.write(&format!("{work}/.githooks.toml"), "[hooks]\npre-commit = [\"touch two.marker\"]\n");
    let s = sb.hooks_in(&["sign", "--key", &key, "--signer", "maint@example.com"], &work);
    assert_eq!(s.code, 0);
    let o = sb.hooks_in(&["run", "pre-commit"], &work);
    assert_eq!(
        o.err,
        format!(
            "git-hooks: hooks auto-accepted: signed by trusted key {fp} (maint@example.com)\n\
             git-hooks[pre-commit]: touch two.marker\n"
        )
    );
    assert!(sb.is_there(&format!("{work}/two.marker")));
}

#[test]
fn invalid_signature_warns_on_the_terminal() {
    let mut sb = Sandbox::new();
    sb.install();
    let key = sb.keygen();
    let origin = sb.make_origin("[hooks]\npre-commit = [\"true\"]\n", &[]);
    sb.sign_origin(&origin, &key, "maint@example.com");
    let work = sb.clone(&origin, "work");
    sb.write(&format!("{work}/.githooks.toml"), "[hooks]\npre-commit = [\"touch ran.marker\"]\n");
    sb.terminal = Some(vec!["t\n".to_string()]);
    let o = sb.hooks_in(&["run", "pre-commit"], &work);
    assert_eq!(o.code, 0);
    assert!(sb.told.contains(
        "signature present but INVALID — do not accept unless you understand why.\naccept? [y/N] \n"
    ));
    // `t` is not offered, so it declines.
    assert!(!sb.is_there(&format!("{work}/ran.marker")));
    assert!(sb.local_values(&work, "hooks.trustedKey").is_empty());
}

#[test]
fn changed_content_is_shown_as_a_diff() {
    let mut sb = Sandbox::new();
    sb.install();
    let origin = sb.make_origin(
        "[hooks]\npre-commit = [\"true\"]\n",
        &[(".githooks/gone.sh", "g\n"), (".githooks/kept.sh", "k\n"), (".githooks/old.sh", "o\n")],
    );
    let work = sb.clone(&origin, "work");
    sb.hooks_in(&["accept"], &work);
    sb.remove(&format!("{work}/.githooks/gone.sh"));
    sb.write(&format!("{work}/.githooks/new.sh"), "n1\nn2\n\n");
    sb.write(&format!("{work}/.githooks/old.sh"), "changed\n");
    sb.terminal = Some(vec!["y\n".to_string()]);
    sb.hooks_in(&["run", "pre-commit"], &work);
    assert!(sb.told.starts_with(
        "\nthis repository's hooks CHANGED since you last accepted them. review the changes:\n\n\
         --- added: .githooks/new.sh ---\nn1\nn2\n\
         --- changed: .githooks/old.sh ---\n-o\n+changed\n\
         --- removed: .githooks/gone.sh ---\n\
         \nthese commands will run on your machine during git operations.\naccept? [y/N] \n"
    ));
    let d = sb.hooks_in(&["diff"], &work);
    assert_eq!(d.out, "unchanged since your last accept.\nsignature: unsigned\n");
}

// ---------------------------------------------------------------------------
// Consent.
// ---------------------------------------------------------------------------

#[test]
fn pinned_consent_uses_the_hash_that_status_shows() {
    let mut sb = Sandbox::new();
    sb.install();
    let origin = sb.make_origin("[hooks]\npre-commit = [\"touch ran.marker\"]\n", &[]);
    let work = sb.clone(&origin, "work");
    let marker = format!("{work}/ran.marker");
    let st = sb.hooks_in(&["status"], &work);
    let shown = out(&st)
        .lines()
        .find_map(|l| l.strip_prefix("content hash: ").map(str::to_string))
        .expect("hash line");
    let pin = format!("accept:{shown}");
    let o = sb.hooks_in_env(&["run", "pre-commit"], &work, &[("GIT_HOOKS_CONSENT", &pin)]);
    assert_eq!(o.code, 0);
    assert!(sb.is_there(&marker));
    // Nothing was recorded, and nothing was asked for that would record.
    assert!(sb.local[&work].is_empty());
    assert!(sb.asked.iter().all(|(op, _)| *op != Op::Git));
    // Once the content changes the pin does not hold.
    sb.remove(&marker);
    sb.write(&format!("{work}/.githooks.toml"), "[hooks]\npre-commit = [\"touch ran.marker\"]\n\n");
    let o = sb.hooks_in_env(&["run", "pre-commit"], &work, &[("GIT_HOOKS_CONSENT", &pin)]);
    assert!(err(&o).contains("skipping"));
    assert!(!sb.is_there(&marker));
}

#[test]
fn override_declines_accepted_hooks() {
    let mut sb = Sandbox::new();
    sb.install();
    let origin = sb.make_origin("[hooks]\npre-commit = [\"touch ran.marker\"]\n", &[]);
    let work = sb.clone(&origin, "work");
    sb.hooks_in(&["accept"], &work);
    let o = sb.hooks_in_env(&["run", "pre-commit"], &work, &[("GIT_HOOKS_CONSENT", "decline")]);
    assert_eq!((o.code, o.err.as_str()), (0, ""));
    assert!(!sb.is_there(&format!("{work}/ran.marker")));
    // An empty value decides nothing: the recorded decision holds.
    sb.hooks_in_env(&["run", "pre-commit"], &work, &[("GIT_HOOKS_CONSENT", "")]);
    assert!(sb.is_there(&format!("{work}/ran.marker")));
}

#[test]
fn accepting_stores_content_and_declining_does_not() {
    let mut sb = Sandbox::new();
    sb.install();
    let toml = "[hooks]\npre-commit = [\".githooks/x.sh\"]\n";
    let origin = sb.make_origin(toml, &[(".githooks/x.sh", "x\n")]);
    let work = sb.clone(&origin, "work");
    let a = sb.hooks_in(&["accept"], &work);
    assert_eq!(a.out, "accepted hooks from .githooks.toml for this repository.\n");
    assert_eq!(
        sb.local_values(&work, "hooks.consentManifest"),
        vec![
            format!(".githooks.toml\t{}", hash(toml.as_bytes())),
            format!(".githooks/x.sh\t{}", hash(b"x\n")),
        ]
    );
    let canonical = format!(
        ".githooks.toml:{}\n.githooks/x.sh:{}\n",
        hash(toml.as_bytes()),
        hash(b"x\n")
    );
    let h = hash(canonical.as_bytes());
    assert_eq!(sb.local_value(&work, "hooks.consent"), Some(format!("accept:{h}")));
    assert_eq!(sb.objects.len(), 2);
    sb.objects.clear();
    let d = sb.hooks_in(&["decline"], &work);
    assert_eq!(d.out, "declined hooks from .githooks.toml for this repository.\n");
    assert_eq!(sb.local_value(&work, "hooks.consent"), Some(format!("decline:{h}")));
    assert!(sb.local_values(&work, "hooks.consentManifest").is_empty());
    assert!(sb.objects.is_empty());
}

#[test]
fn commands_need_a_repository_and_a_configuration() {
    let mut sb = Sandbox::new();
    let bare = format!("{ROOT}/elsewhere");
    for args in [vec!["status"], vec!["diff"], vec!["init"], vec!["sign", "--key", "k"]] {
        let o = sb.hooks_in(&args, &bare);
        assert_eq!((o.code, o.err.as_str()), (1, "not inside a git repository\n"), "{args:?}");
    }
    let o = sb.hooks_in(&["add", "pre-commit", "true"], &bare);
    assert_eq!((o.code, o.err.as_str()), (1, "not inside a git repository\n"));
    let o = sb.hooks_in(&["accept"], &bare);
    assert_eq!((o.code, o.err.as_str()), (1, "no .githooks.toml in this repository\n"));
    let o = sb.hooks_in(&["run", "pre-commit"], &bare);
    assert_eq!((o.code, o.err.as_str()), (0, ""));
    for args in [["trust", "SHA256:a"], ["untrust", "SHA256:a"]] {
        let o = sb.hooks_in(&args, &bare);
        assert_eq!(
            (o.code, o.err.as_str()),
            (1, "not inside a git repository (use --global for the org policy file)\n")
        );
    }
    let repo = format!("{ROOT}/repo");
    sb.init(&repo);
    let o = sb.hooks_in(&["decline"], &repo);
    assert_eq!((o.code, o.err.as_str()), (1, "no .githooks.toml in this repository\n"));
    let o = sb.hooks_in(&["status"], &repo);
    assert_eq!((o.code, o.out.as_str()), (0, "no .githooks.toml in this repository\n"));
    let o = sb.hooks_in(&["diff"], &repo);
    assert_eq!((o.code, o.out.as_str()), (0, "no .githooks.toml in this repository\n"));
    let o = sb.hooks_in(&["sign", "--key", "k"], &repo);
    assert_eq!((o.code, o.err.as_str()), (1, "no .githooks.toml to sign in this repository\n"));
    let o = sb.hooks_in(&["run", "pre-commit"], &repo);
    assert_eq!((o.code, o.err.as_str()), (0, ""));
    let o = sb.hooks_in(&["init"], &repo);
    assert_eq!(
        (o.code, o.err.as_str()),
        (1, "no hook template found — run `git hooks install` first.\n")
    );
}

#[test]
fn status_says_all_there_is_to_say() {
    let mut sb = Sandbox::new();
    let repo = format!("{ROOT}/repo");
    sb.init(&repo);
    let toml = "[hooks]\npre-commit = [\"true\", 3]\npre-push = \"x\"\n";
    sb.write(&format!("{repo}/.githooks.toml"), toml);
    sb.write(&format!("{repo}/.githooks/x.sh"), "x\n");
    let canonical =
        format!(".githooks.toml:{}\n.githooks/x.sh:{}\n", hash(toml.as_bytes()), hash(b"x\n"));
    let o = sb.hooks_in(&["status"], &repo);
    assert_eq!(
        o.out,
        format!(
            "[pre-commit]\n  true\n  <unparseable entry>\n\
             \ncovered scripts under .githooks/:\n  .githooks/x.sh\n\
             \nstatus: no decision yet — will prompt on first hook\n\
             content hash: {}\nsignature: unsigned\n",
            hash(canonical.as_bytes())
        )
    );
    // Showing the status changes nothing.
    assert!(sb.local[&repo].is_empty() && sb.objects.is_empty());
}

#[test]
fn diff_before_anything_was_accepted() {
    let mut sb = Sandbox::new();
    let repo = format!("{ROOT}/repo");
    sb.init(&repo);
    sb.write(&format!("{repo}/.githooks.toml"), "[hooks]\n");
    let o = sb.hooks_in(&["diff"], &repo);
    assert_eq!(o.out, "nothing accepted yet.\nsignature: unsigned\n");
}

// ---------------------------------------------------------------------------
// Running.
// ---------------------------------------------------------------------------

#[test]
fn the_first_failure_ends_the_hook() {
    let mut sb = Sandbox::new();
    let repo = format!("{ROOT}/repo");
    sb.init(&repo);
    sb.write(
        &format!("{repo}/.githooks.toml"),
        "[hooks]\ncommit-msg = [\"touch one\", 5, \"exit 3\", \"touch two\"]\n",
    );
    sb.hooks_in(&["accept"], &repo);
    let o = sb.hooks_in(&["run", "commit-msg", ".git/MSG"], &repo);
    assert_eq!(o.code, 3);
    assert_eq!(
        o.err,
        "git-hooks[commit-msg]: touch one\ngit-hooks[commit-msg]: exit 3\n\
         git-hooks[commit-msg]: FAILED: exit 3\n"
    );
    assert!(sb.is_there(&format!("{repo}/one")) && !sb.is_there(&format!("{repo}/two")));
    // The arguments of the hook follow the command.
    let shells: Vec<Vec<String>> =
        sb.asked.iter().filter(|(op, _)| *op == Op::Shell).map(|(_, w)| w.clone()).collect();
    assert_eq!(
        shells,
        vec![
            vec![repo.clone(), "touch one".to_string(), ".git/MSG".to_string()],
            vec![repo.clone(), "exit 3".to_string(), ".git/MSG".to_string()],
        ]
    );
    // A hook that is not configured does nothing.
    let o = sb.hooks_in(&["run", "pre-push"], &repo);
    assert_eq!((o.code, o.err.as_str()), (0, ""));
}

#[test]
fn bad_configuration_fails_once_accepted() {
    let mut sb = Sandbox::new();
    let repo = format!("{ROOT}/repo");
    sb.init(&repo);
    sb.write(&format!("{repo}/.githooks.toml"), "[hooks\n");
    sb.hooks_in(&["accept"], &repo);
    let o = sb.hooks_in(&["run", "pre-commit"], &repo);
    assert_eq!(o.code, 1);
    assert!(o.err.starts_with("git-hooks: bad .githooks.toml: TOML parse error"), "{}", o.err);
}

// ---------------------------------------------------------------------------
// Setup, adding, signing, trusting.
// ---------------------------------------------------------------------------

#[test]
fn install_and_uninstall() {
    let mut sb = Sandbox::new();
    let o = sb.hooks_in(&["install"], HOME);
    assert_eq!(
        o.out,
        "installed. new clones get hook shims automatically.\n\
         existing repo? run `git hooks init` inside it to copy the shims.\n"
    );
    let dir = format!("{HOME}/.config/git-hooks/template");
    assert_eq!(sb.template(), Some(dir.clone()));
    assert_eq!(
        sb.read(&format!("{dir}/hooks/pre-push")),
        "#!/bin/sh\n# git-hooks shim\nexec git-hooks run pre-push \"$@\"\n"
    );
    assert!(sb.executable.contains(&format!("{dir}/hooks/pre-push")));
    assert_eq!(sb.listing(&format!("{dir}/hooks")).1.len(), 14);
    let o = sb.hooks_in(&["uninstall"], HOME);
    assert_eq!(
        o.out,
        "uninstalled. already-cloned repos keep their shims; delete .git/hooks/* to remove.\n"
    );
    assert_eq!(sb.template(), None);
    assert!(!sb.is_there(&dir));
    // A second time `git` has nothing to unset.
    let o = sb.hooks_in(&["uninstall"], HOME);
    assert_eq!(
        (o.code, o.err.as_str()),
        (1, "git-hooks: `git config --global --unset init.templateDir` failed\n")
    );
}

#[test]
fn init_renews_its_own_shims() {
    let mut sb = Sandbox::new();
    sb.install();
    let repo = format!("{ROOT}/repo");
    sb.init(&repo);
    let hook = format!("{repo}/.git/hooks/pre-commit");
    sb.write(&hook, "#!/bin/sh\n# git-hooks shim\nolder\n");
    sb.remove(&format!("{HOME}/.config/git-hooks/template/hooks/pre-push"));
    let o = sb.hooks_in(&["init"], &repo);
    assert_eq!(
        o.out,
        "installed shims: applypatch-msg, pre-applypatch, post-applypatch, pre-commit, \
         pre-merge-commit, prepare-commit-msg, commit-msg, post-commit, pre-rebase, \
         post-checkout, post-merge, post-rewrite, pre-auto-gc\n"
    );
    assert_eq!(
        sb.read(&hook),
        "#!/bin/sh\n# git-hooks shim\nexec git-hooks run pre-commit \"$@\"\n"
    );
}

#[test]
fn add_appends_and_keeps_the_rest() {
    let mut sb = Sandbox::new();
    let repo = format!("{ROOT}/repo");
    sb.init(&repo);
    let path = format!("{repo}/.githooks.toml");
    sb.write(&path, "title = \"x\"\n\n[hooks]\npre-commit = [\"a\"]\npre-push = [\"b\"]\n");
    let o = sb.hooks_in(&["add", "pre-commit", "c d"], &repo);
    assert_eq!(
        o.out,
        "added to .githooks.toml: [pre-commit] c d\n\
         commit the file so others see it. they will be prompted before it runs for them.\n"
    );
    assert_eq!(
        sb.read(&path),
        "title = \"x\"\n\n[hooks]\npre-commit = [\"a\", \"c d\"]\npre-push = [\"b\"]\n"
    );
    let o = sb.hooks_in(&["add", "no-such-hook", "true"], &repo);
    assert_eq!(o.code, 2);
    assert!(o.err.starts_with("unknown hook 'no-such-hook'. known: applypatch-msg, pre-applypatch"));
    sb.write(&path, "hooks = 1\n");
    let o = sb.hooks_in(&["add", "pre-commit", "true"], &repo);
    assert_eq!((o.code, o.err.as_str()), (101, "[hooks] must be a table"));
    sb.write(&path, "[hooks]\npre-commit = 1\n");
    let o = sb.hooks_in(&["add", "pre-commit", "true"], &repo);
    assert_eq!((o.code, o.err.as_str()), (101, "hook entry must be an array"));
}

#[test]
fn signing_lists_the_signer_once() {
    let mut sb = Sandbox::new();
    let key = sb.keygen();
    let fp = sb.fingerprint(&key);
    let repo = format!("{ROOT}/repo");
    sb.init(&repo);
    sb.write(&format!("{repo}/.githooks.toml"), "[hooks]\n");
    let o = sb.hooks_in(&["sign", "--key", &key], &repo);
    assert_eq!(
        o.out,
        format!(
            "signed .githooks.toml + .githooks/ (excluding trust/) as test@example.com\n\
             signing key fingerprint: {fp}\n\
             commit .githooks/trust/ so cloners who trust this key are never prompted.\n"
        )
    );
    let signers = format!("{repo}/.githooks/trust/allowed_signers");
    let listed = sb.read(&signers);
    assert_eq!(listed, format!("test@example.com {}\n", sb.public(&key).expect("key")));
    let first = sb.read(&format!("{repo}/.githooks/trust/hooks.sig"));
    // Signing again signs the same content: the signature is not signed.
    sb.hooks_in(&["sign", "--key", &key], &repo);
    assert_eq!(sb.read(&signers), listed);
    assert_eq!(sb.read(&format!("{repo}/.githooks/trust/hooks.sig")), first);
    let st = sb.hooks_in(&["status"], &repo);
    assert!(st.out.ends_with(&format!(
        "signature: signed by test@example.com, key {fp} — valid, untrusted\n"
    )));
    let o = sb.hooks_in(&["sign", "--key", "/no/such/key"], &repo);
    assert_eq!(
        (o.code, o.err.as_str()),
        (1, "ssh-keygen sign failed: Couldn't load /no/such/key\n")
    );
    sb.global.retain(|(k, _)| k != "user.email");
    let o = sb.hooks_in(&["sign", "--key", &key], &repo);
    assert_eq!(
        (o.code, o.err.as_str()),
        (1, "no --signer given and git user.email is unset\n")
    );
}

#[test]
fn trusting_and_untrusting() {
    let mut sb = Sandbox::new();
    let repo = format!("{ROOT}/repo");
    sb.init(&repo);
    for k in ["SHA256:a", "SHA256:b", "SHA256:a"] {
        let o = sb.hooks_in(&["trust", k], &repo);
        assert_eq!(o.out, format!("trusted signing key {k} for this repository.\n"));
    }
    assert_eq!(sb.local_values(&repo, "hooks.trustedKey"), vec!["SHA256:a", "SHA256:b"]);
    let o = sb.hooks_in(&["untrust", "SHA256:a"], &repo);
    assert_eq!(o.out, "untrusted SHA256:a for this repository.\n");
    assert_eq!(sb.local_values(&repo, "hooks.trustedKey"), vec!["SHA256:b"]);

    let path = format!("{HOME}/.config/git-hooks/policy.toml");
    let o = sb.hooks_in(&["trust", "--global", "SHA256:a"], HOME);
    assert_eq!(o.out, format!("globally trusted signing key SHA256:a ({path})\n"));
    sb.hooks_in(&["trust", "SHA256:b", "--global"], HOME);
    sb.hooks_in(&["trust", "SHA256:b", "--global"], HOME);
    assert_eq!(sb.read(&path), "trusted_keys = [\"SHA256:a\", \"SHA256:b\"]\n");
    let o = sb.hooks_in(&["untrust", "--global", "SHA256:a"], HOME);
    assert_eq!(o.out, "removed SHA256:a from global trust.\n");
    assert_eq!(sb.read(&path), "trusted_keys = [\"SHA256:b\"]\n");
    sb.write_policy("default = \"decline\"\ntrusted_keys = 1\n");
    let o = sb.hooks_in(&["trust", "--global", "SHA256:a"], HOME);
    assert_eq!((o.code, o.err.as_str()), (101, "trusted_keys must be an array"));
    let o = sb.hooks_in(&["untrust", "--global", "SHA256:a"], HOME);
    assert_eq!(o.code, 0);
    assert_eq!(sb.read(&path), "default = \"decline\"\ntrusted_keys = 1\n");
}

#[test]
fn wrong_usage() {
    let mut sb = Sandbox::new();
    let repo = format!("{ROOT}/repo");
    sb.init(&repo);
    let calls: Vec<Vec<&str>> = vec![
        vec![],
        vec!["help"],
        vec!["add"],
        vec!["add", "pre-commit"],
        vec!["run"],
        vec!["sign"],
        vec!["sign", "--key"],
        vec!["sign", "--signer", "x"],
        vec!["sign", "--key", "k", "other"],
        vec!["trust"],
        vec!["trust", "--global"],
        vec!["untrust", "a", "b"],
    ];
    for args in calls {
        let o = sb.hooks_in(&args, &repo);
        assert_eq!(o.code, 2, "{args:?}");
        assert!(o.err.starts_with("usage: git hooks <command>\n\ninstall                  one-time"));
        assert!(o.err.contains(
            "\nsign --key <path> [--signer <principal>]\n                         sign the current"
        ));
        assert!(o.err.contains("\nconsent is keyed to the content of both; any byte change re-prompts.\n"));
        assert!(o.err.ends_with(
            "a maintainer can `sign` the hooks so cloners who `trust` the key never\n\
             get prompted while the signature stays valid.\n"
        ));
    }
}

// Of two keys that a principal has, the one that signed is the one to be trusted.
#[test]
fn the_key_that_signed_is_the_one_to_trust() {
    let mut sb = Sandbox::new();
    sb.install();
    let key = sb.keygen();
    let other = format!("{ROOT}/other_key");
    sb.write(&other, "another secret");
    let origin = sb.make_origin("[hooks]\npre-commit = [\"touch ran.marker\"]\n", &[]);
    sb.sign_origin(&origin, &key, "maint@example.com");
    // The other key is listed first, for the same principal.
    let signers = format!("{origin}/.githooks/trust/allowed_signers");
    let listed = format!("maint@example.com {}\n{}", sb.public(&other).expect("key"), sb.read(&signers));
    sb.write(&signers, &listed);
    let work = sb.clone(&origin, "work");
    let (signing, first) = (sb.fingerprint(&key), sb.fingerprint(&other));

    sb.hooks_in(&["trust", &first], &work);
    let st = sb.hooks_in(&["status"], &work);
    assert!(out(&st).contains(&format!(
        "signature: signed by maint@example.com, key {signing} — valid, untrusted"
    )));
    sb.stage(&work, "a.txt", "1\n");
    assert!(sb.commit(&work).success());
    assert!(!sb.is_there(&format!("{work}/ran.marker")));

    sb.hooks_in(&["trust", &signing], &work);
    sb.stage(&work, "a.txt", "2\n");
    assert!(sb.commit(&work).success());
    assert!(sb.is_there(&format!("{work}/ran.marker")));
}

// A policy that declines by default stands above what was accepted before, but not
// above a trusted signature.
#[test]
fn declining_policy_stands_above_an_acceptance() {
    let mut sb = Sandbox::new();
    sb.install();
    let key = sb.keygen();
    let fp = sb.fingerprint(&key);
    let origin = sb.make_origin("[hooks]\npre-commit = ['exit 7']\n", &[]);
    let work = sb.clone(&origin, "work");
    assert!(sb.hooks_in(&["accept"], &work).success());
    assert_eq!(sb.hooks_in(&["run", "pre-commit"], &work).code, 7);

    sb.write_policy("default = \"decline\"\n");
    let o = sb.hooks_in(&["run", "pre-commit"], &work);
    assert_eq!(o.code, 0);
    assert!(err(&o).contains("org policy default is `decline`"));
    assert!(!sb.asked.iter().any(|(op, _)| *op == Op::Shell));
    // The variable decides for one call.
    let vars = [("GIT_HOOKS_CONSENT", "accept")];
    assert_eq!(sb.hooks_in_env(&["run", "pre-commit"], &work, &vars).code, 7);

    sb.sign_origin(&work, &key, "maint@example.com");
    assert!(sb.hooks_in(&["accept"], &work).success());
    assert_eq!(sb.hooks_in(&["run", "pre-commit"], &work).code, 0);
    assert!(sb.hooks_in(&["trust", &fp], &work).success());
    assert_eq!(sb.hooks_in(&["run", "pre-commit"], &work).code, 7);
}

// A list of signers that does not end in a newline keeps its last entry.
#[test]
fn signing_keeps_the_entries_apart() {
    let mut sb = Sandbox::new();
    sb.install();
    let key = sb.keygen();
    let origin = sb.make_origin("[hooks]\npre-commit = ['true']\n", &[]);
    let signers = format!("{origin}/.githooks/trust/allowed_signers");
    sb.write(&signers, "a@x ssh-ed25519 AAAA");
    let o = sb.hooks_in(&["sign", "--key", &key, "--signer", "b@x"], &origin);
    assert!(o.success(), "sign failed: {}", err(&o));
    let line = format!("b@x {}", sb.public(&key).expect("key"));
    assert_eq!(sb.read(&signers), format!("a@x ssh-ed25519 AAAA\n{line}\n"));
    // Signing again adds nothing.
    sb.hooks_in(&["sign", "--key", &key, "--signer", "b@x"], &origin);
    assert_eq!(sb.read(&signers), format!("a@x ssh-ed25519 AAAA\n{line}\n"));
}

// Names that `git` lists in quotes are matched and handed over as they are.
#[test]
fn unusual_staged_names() {
    let mut sb = Sandbox::new();
    sb.install();
    let toml = "[hooks]\npre-commit = [{ run = \"echo {staged_files}\", glob = \"*.rs\" }]\n";
    let origin = sb.make_origin(toml, &[]);
    let work = sb.clone(&origin, "work");
    sb.hooks_in(&["accept"], &work);
    sb.stage(&work, "é.rs", "1\n");
    let o = sb.hooks_in(&["run", "pre-commit"], &work);
    assert_eq!(out(&o), "'é.rs'\n");
}

// Only files of the repository are pointed out.
#[test]
fn files_elsewhere_are_not_pointed_out() {
    let mut sb = Sandbox::new();
    sb.install();
    let toml = "[hooks]\npre-commit = ['/bin/sh -c true', 'a/../../x ./a/../y/z']\n";
    let origin = sb.make_origin(toml, &[]);
    sb.write("/bin/sh", "");
    let work = sb.clone(&origin, "work");
    for f in ["a/../../x", "a/../y/z"] {
        sb.write(&format!("{work}/{f}"), "");
    }
    sb.terminal = Some(vec!["n\n".to_string()]);
    sb.hooks_in(&["run", "pre-commit"], &work);
    let note = "NOT covered by this consent:\n  a/../y/z\naccept? [y/N] ";
    assert!(sb.told.contains(note), "{}", sb.told);
}

// Adopting a repository again changes no file and reports the same.
#[test]
fn adopting_twice() {
    let mut sb = Sandbox::new();
    let repo = format!("{ROOT}/repo");
    sb.init(&repo);
    sb.install();
    sb.write(&format!("{repo}/.git/hooks/pre-push"), "#!/bin/sh\nmine\n");
    let first = sb.hooks_in(&["init"], &repo);
    let files = sb.files.clone();
    assert_eq!(sb.read(&format!("{repo}/.git/hooks/pre-push")), "#!/bin/sh\nmine\n");
    let second = sb.hooks_in(&["init"], &repo);
    assert!(first.out.contains("left untouched): pre-push\n"));
    assert_eq!((first.out, first.code), (second.out, second.code));
    assert_eq!(sb.files, files);
}

// Trusting a key and no longer trusting it leaves the others as they were.
#[test]
fn trusting_and_no_longer() {
    let mut sb = Sandbox::new();
    sb.install();
    let origin = sb.make_origin("[hooks]\n", &[]);
    let work = sb.clone(&origin, "work");
    for key in ["SHA256:b", "SHA256:a", "SHA256:b"] {
        assert!(sb.hooks_in(&["trust", key], &work).success());
    }
    let keys = |sb: &Sandbox| -> Vec<String> {
        let all = sb.local[&format!("{ROOT}/work")].iter();
        all.filter(|(k, _)| k == "hooks.trustedKey").map(|(_, v)| v.clone()).collect()
    };
    assert_eq!(keys(&sb), ["SHA256:b", "SHA256:a"]);
    sb.hooks_in(&["trust", "SHA256:c"], &work);
    sb.hooks_in(&["untrust", "SHA256:c"], &work);
    assert_eq!(keys(&sb), ["SHA256:b", "SHA256:a"]);
    sb.hooks_in(&["untrust", "SHA256:b"], &work);
    assert_eq!(keys(&sb), ["SHA256:a"]);
}

// Trusting a key by the policy twice changes it once, and leaves the rest of it.
#[test]
fn trusting_globally_twice() {
    let mut sb = Sandbox::new();
    sb.write_policy("default = \"decline\"\nn = 1\ntrusted_keys = [\"SHA256:b\"]\n");
    let path = format!("{HOME}/.config/git-hooks/policy.toml");
    for _ in 0..2 {
        assert!(sb.hooks_in(&["trust", "SHA256:a", "--global"], HOME).success());
        assert_eq!(
            sb.read(&path),
            "default = \"decline\"\nn = 1\ntrusted_keys = [\"SHA256:b\", \"SHA256:a\"]\n"
        );
    }
}

// A decision takes the place of an earlier one.
#[test]
fn a_decision_takes_the_place_of_another() {
    let mut sb = Sandbox::new();
    sb.install();
    let scripts = [(".githooks/a.sh", "1\n"), (".githooks/d/b.sh", "2\n")];
    let origin = sb.make_origin("[hooks]\n", &scripts);
    let work = sb.clone(&origin, "work");
    let entries = |sb: &Sandbox, key: &str| -> Vec<String> {
        let all = sb.local[&format!("{ROOT}/work")].iter();
        all.filter(|(k, _)| k == key).map(|(_, v)| v.clone()).collect()
    };
    for _ in 0..2 {
        sb.hooks_in(&["accept"], &work);
        let manifest = entries(&sb, "hooks.consentManifest");
        assert_eq!(
            manifest,
            [
                format!(".githooks.toml\t{}", hash(b"[hooks]\n")),
                format!(".githooks/a.sh\t{}", hash(b"1\n")),
                format!(".githooks/d/b.sh\t{}", hash(b"2\n")),
            ]
        );
        assert_eq!(entries(&sb, "hooks.consent").len(), 1);
    }
    sb.hooks_in(&["decline"], &work);
    assert!(entries(&sb, "hooks.consentManifest").is_empty());
    assert!(entries(&sb, "hooks.consent")[0].starts_with("decline:"));
}

// A command with quotes of every kind is read back as it was added.
#[test]
fn adds_any_command() {
    let mut sb = Sandbox::new();
    sb.install();
    let origin = sb.make_origin("n = 1\nb = true\n[hooks]\npre-commit = [\"true\"]\n", &[]);
    let cmd = "echo \"it's\" '\\n' \"\"\"x\"\"\"";
    let o = sb.hooks_in(&["add", "pre-commit", cmd], &origin);
    assert!(o.success(), "{}", err(&o));
    let st = sb.hooks_in(&["status"], &origin);
    assert!(out(&st).starts_with(&format!("[pre-commit]\n  true\n  {cmd}\n")), "{}", out(&st));
    assert!(out(&st).contains("status: accepted"));
    let text = sb.read(&format!("{origin}/.githooks.toml"));
    assert!(text.starts_with("b = true\nn = 1\n"), "{text}");
}

#[test]
fn files_by_other_names_are_pointed_out() {
    let mut sb = Sandbox::new();
    sb.install();
    let origin = sb.make_origin("[hooks]\npre-commit = ['true']\n", &[]);
    let work = sb.clone(&origin, "work");
    let command = format!("{work}/scripts/x.sh ../work/tools/y {work}/.githooks/in.sh /else/z");
    sb.write(&format!("{work}/.githooks.toml"), &format!("[hooks]\npre-commit = ['{command}']\n"));
    for f in ["scripts/x.sh", "../work/tools/y", ".githooks/in.sh"] {
        sb.write(&format!("{work}/{f}"), "");
    }
    sb.write("/else/z", "");
    sb.terminal = Some(vec!["n\n".to_string()]);
    sb.hooks_in(&["run", "pre-commit"], &work);
    let note = format!(
        "NOT covered by this consent:\n  ../work/tools/y\n  {work}/scripts/x.sh\naccept? [y/N] "
    );
    assert!(sb.told.contains(&note), "{}", sb.told);
}

#[test]
fn installing_twice() {
    let mut sb = Sandbox::new();
    sb.write(&format!("{HOME}/.config/git-hooks/template/hooks/pre-commit"), "an old one\n");
    sb.install();
    let (files, executable) = (sb.files.clone(), sb.executable.clone());
    let (dirs, global) = (sb.dirs.clone(), sb.global.clone());
    let shim = sb.read(&format!("{HOME}/.config/git-hooks/template/hooks/pre-commit"));
    assert!(shim.contains("run pre-commit"), "{shim}");
    assert_eq!(executable.len(), 14);
    sb.install();
    assert_eq!(sb.files, files);
    assert_eq!(sb.executable, executable);
    assert_eq!(sb.dirs, dirs);
    assert_eq!(sb.global, global);
}

#[test]
fn every_file_at_any_depth_counts() {
    let mut sb = Sandbox::new();
    sb.install();
    let deep = [
        (".githooks/a", "1"),
        (".githooks/d/b", "2"),
        (".githooks/d/e/c", "3"),
        (".githooks/d.x", "4"),
    ];
    let origin = sb.make_origin("[hooks]\npre-commit = ['true']\n", &deep);
    let work = sb.clone(&origin, "work");
    sb.hooks_in(&["accept"], &work);
    let status = |sb: &mut Sandbox| out(&sb.hooks_in(&["status"], &work));
    let accepted = status(&mut sb);
    let manifest = sb.local_values(&work, "hooks.consentManifest");
    let names: Vec<&str> = manifest.iter().map(|l| l.split('\t').next().unwrap()).collect();
    let want: Vec<&str> = deep.iter().map(|f| f.0).collect();
    assert_eq!(names[0], ".githooks.toml");
    assert_eq!(names[1..], want);
    // A byte, a name or a file more or less changes the content; putting it back does not.
    let path = format!("{work}/.githooks/d/e/c");
    sb.write(&path, "5");
    assert_ne!(status(&mut sb), accepted);
    sb.write(&path, "3");
    assert_eq!(status(&mut sb), accepted);
    sb.remove(&path);
    assert_ne!(status(&mut sb), accepted);
    sb.write(&path, "3");
    sb.write(&format!("{work}/.githooks/d/e/f"), "");
    assert_ne!(status(&mut sb), accepted);
}

#[test]
fn no_longer_trusting_globally() {
    let mut sb = Sandbox::new();
    sb.write_policy("default = \"prompt\"\nsince = 1979-05-27\ntrusted_keys = [\"SHA256:a\"]\n");
    let path = format!("{HOME}/.config/git-hooks/policy.toml");
    let before = sb.read(&path);
    sb.hooks_in(&["trust", "SHA256:b", "--global"], HOME);
    assert!(sb.read(&path).contains("SHA256:b"));
    sb.hooks_in(&["untrust", "SHA256:b", "--global"], HOME);
    assert_eq!(sb.read(&path), before);
}
