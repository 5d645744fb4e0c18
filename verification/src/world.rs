//! The boundary to the outside world.
//!
//! Nothing in this library touches a file, a process or a terminal. A command is
//! a function of the exchanges that it has had so far: it reads the replies it
//! was given, in order, and stops at the first request that has no reply yet.
//! The program around the library performs that request, appends the exchange
//! and calls the command again, until the command has come to its end.
use crate::text::{same, texts, trim, trimmed};
use vstd::prelude::*;
use vstd::utf8::{decode_utf8, valid_utf8};

verus! {

/// What can be asked of the outside world, with what it takes.
#[derive(Clone, Copy, PartialEq, Eq, Structural, Debug)]
pub enum Op {
    /// Run `git` with the given arguments, its input and output being those of
    /// this program.
    Git,
    /// Run `git` with the given arguments and keep what it writes.
    GitCapture,
    /// Run `git` in the directory that is given first, with the arguments that
    /// follow, and keep what it writes.
    GitCaptureIn,
    /// Run `git` with the text that is given first as its input and with the
    /// arguments that follow. Keep what it writes to its output.
    GitFeed,
    /// Run `ssh-keygen` with the given arguments and keep what it writes.
    SshCapture,
    /// Run `ssh-keygen` with the text that is given first as its input and with
    /// the arguments that follow. Keep what it writes.
    SshFeed,
    /// In the directory that is given first run `sh -c` on the command that is
    /// given second, with `sh` and then the rest as its arguments.
    Shell,
    /// Read the text of a file.
    ReadText,
    /// Write a file: its path and its text.
    WriteText,
    /// Append to a file, which is created if need be: its path and the text.
    AppendText,
    /// Copy a file: its path and that of the copy.
    CopyFile,
    /// Make a file executable, where that means anything.
    MakeExecutable,
    /// Create a directory and those that it lies in.
    CreateDirs,
    /// Remove a directory with all that is in it.
    RemoveDirs,
    /// Whether a path is that of a file.
    IsFile,
    /// Whether a path is that of a directory.
    IsDir,
    /// Whether there is anything at a path.
    Exists,
    /// The names in a directory.
    ListDir,
    /// The value of an environment variable.
    EnvVar,
    /// The current directory.
    CurrentDir,
    /// Write a text to standard output.
    Print,
    /// Write a text to standard error.
    Report,
    /// Open the terminal: the device to read from and the device to write to.
    OpenTerminal,
    /// Write a text to the terminal.
    TellTerminal,
    /// Read a line from the terminal.
    HearTerminal,
}

/// A request to the outside world.
pub struct Request {
    /// What is asked.
    pub op: Op,
    /// What it takes.
    pub words: Vec<String>,
}

/// How a process ended.
pub struct Finished {
    /// Its exit code, unless a signal ended it.
    pub code: Option<i32>,
    /// Whether it took all of the input it was given.
    pub fed: bool,
    /// What it wrote to its output.
    pub stdout: Vec<u8>,
    /// What it wrote to its error output.
    pub stderr: Vec<u8>,
}

/// An answer of the outside world.
pub enum Reply {
    /// It was done.
    Done,
    /// Yes or no.
    Flag(bool),
    /// A text, if there is one.
    Text(Option<String>),
    /// The names of the directories and of the files in a directory.
    Listing(Vec<String>, Vec<String>),
    /// How a process ended, or why it could not be run.
    Ran(Result<Finished, String>),
}

/// A request and its answer.
pub struct Exchange {
    /// What was asked.
    pub request: Request,
    /// What came back.
    pub reply: Reply,
}

/// Why a command does not go on.
pub enum Halt {
    /// It waits for the answer to a request.
    Ask(Request),
    /// It is over, with an exit code.
    Exit(i32),
    /// It cannot go on, for the reason given.
    Abort(String),
    /// The exchanges are not those of this command.
    Astray,
}

/// Why a command does not go on, as a mathematical value.
pub enum Stop {
    /// It waits for the answer to a request.
    Ask(Op, Seq<Seq<char>>),
    /// It is over, with an exit code.
    Exit(i32),
    /// It cannot go on, for the reason given.
    Abort(Seq<char>),
    /// The exchanges are not those of this command.
    Astray,
}

impl View for Halt {
    type V = Stop;

    open spec fn view(&self) -> Stop {
        match self {
            Halt::Ask(r) => Stop::Ask(r.op, texts(r.words@)),
            Halt::Exit(code) => Stop::Exit(*code),
            Halt::Abort(reason) => Stop::Abort(reason@),
            Halt::Astray => Stop::Astray,
        }
    }
}

/// What a part of a command comes to on the exchanges so far: a value and the
/// number of exchanges used, or the reason why it does not go on.
pub enum Outcome<T> {
    /// The value, and where the next reply is read.
    Done(T, int),
    /// No value.
    Stop(Stop),
}

/// The mathematical value of what a part of a command returns.
pub trait Told: Sized {
    /// Its type.
    type Meaning;

    /// The value.
    spec fn told(self) -> Self::Meaning;
}

impl Told for () {
    type Meaning = ();

    open spec fn told(self) -> () {
        ()
    }
}

impl Told for bool {
    type Meaning = bool;

    open spec fn told(self) -> bool {
        self
    }
}

impl Told for i32 {
    type Meaning = i32;

    open spec fn told(self) -> i32 {
        self
    }
}

impl Told for String {
    type Meaning = Seq<char>;

    open spec fn told(self) -> Seq<char> {
        self@
    }
}

impl Told for Option<String> {
    type Meaning = Option<Seq<char>>;

    open spec fn told(self) -> Option<Seq<char>> {
        crate::text::maybe(self)
    }
}

impl Told for Vec<String> {
    type Meaning = Seq<Seq<char>>;

    open spec fn told(self) -> Seq<Seq<char>> {
        texts(self@)
    }
}

/// A command under way: the exchanges so far, and which of them comes next.
pub struct Run<'a> {
    /// The exchanges so far.
    pub log: &'a Vec<Exchange>,
    /// How many of them have been used.
    pub at: usize,
    /// Whether the program runs on Windows.
    pub windows: bool,
}

/// Whether `now` is `then`, further on in the same exchanges.
pub open spec fn goes_on(now: Run, then: Run) -> bool {
    now.log == then.log && now.windows == then.windows && then.at <= now.at && (then.at
        <= then.log@.len() ==> now.at <= now.log@.len())
}

/// Whether a part of a command that returned `r`, with the run at `now`, came to
/// the outcome `o`.
pub open spec fn came_to<T: Told>(r: Result<T, Halt>, now: Run, o: Outcome<T::Meaning>) -> bool {
    match r {
        Ok(v) => o == Outcome::Done(v.told(), now.at as int),
        Err(h) => o == Outcome::<T::Meaning>::Stop(h@),
    }
}

// ---------------------------------------------------------------------------
// Asking.
// ---------------------------------------------------------------------------

/// What asking comes to: the reply, if this request was made here before.
pub open spec fn asked(log: Seq<Exchange>, at: int, op: Op, words: Seq<Seq<char>>) -> Outcome<
    Reply,
> {
    if at >= log.len() {
        Outcome::Stop(Stop::Ask(op, words))
    } else if log[at].request.op == op && texts(log[at].request.words@) == words {
        Outcome::Done(log[at].reply, at + 1)
    } else {
        Outcome::Stop(Stop::Astray)
    }
}

/// What asking for something to be done comes to.
pub open spec fn asked_done(log: Seq<Exchange>, at: int, op: Op, words: Seq<Seq<char>>) -> Outcome<
    (),
> {
    match asked(log, at, op, words) {
        Outcome::Stop(s) => Outcome::Stop(s),
        Outcome::Done(Reply::Done, at) => Outcome::Done((), at),
        Outcome::Done(_, _) => Outcome::Stop(Stop::Abort("the reply does not fit the request"@)),
    }
}

/// What asking for yes or no comes to.
pub open spec fn asked_flag(log: Seq<Exchange>, at: int, op: Op, words: Seq<Seq<char>>) -> Outcome<
    bool,
> {
    match asked(log, at, op, words) {
        Outcome::Stop(s) => Outcome::Stop(s),
        Outcome::Done(Reply::Flag(b), at) => Outcome::Done(b, at),
        Outcome::Done(_, _) => Outcome::Stop(Stop::Abort("the reply does not fit the request"@)),
    }
}

/// What asking for a text comes to.
pub open spec fn asked_text(log: Seq<Exchange>, at: int, op: Op, words: Seq<Seq<char>>) -> Outcome<
    Option<Seq<char>>,
> {
    match asked(log, at, op, words) {
        Outcome::Stop(s) => Outcome::Stop(s),
        Outcome::Done(Reply::Text(t), at) => Outcome::Done(crate::text::maybe(t), at),
        Outcome::Done(_, _) => Outcome::Stop(Stop::Abort("the reply does not fit the request"@)),
    }
}

/// What asking for the names in a directory comes to.
pub open spec fn asked_listing(
    log: Seq<Exchange>,
    at: int,
    path: Seq<char>,
) -> Outcome<(Seq<Seq<char>>, Seq<Seq<char>>)> {
    match asked(log, at, Op::ListDir, seq![path]) {
        Outcome::Stop(s) => Outcome::Stop(s),
        Outcome::Done(Reply::Listing(d, f), at) => Outcome::Done((texts(d@), texts(f@)), at),
        Outcome::Done(_, _) => Outcome::Stop(Stop::Abort("the reply does not fit the request"@)),
    }
}

/// What asking for a process to be run comes to.
pub open spec fn asked_ran(log: Seq<Exchange>, at: int, op: Op, words: Seq<Seq<char>>) -> Outcome<
    Option<Finished>,
> {
    match asked(log, at, op, words) {
        Outcome::Stop(s) => Outcome::Stop(s),
        Outcome::Done(Reply::Ran(Ok(f)), at) => Outcome::Done(Some(f), at),
        Outcome::Done(Reply::Ran(Err(_)), at) => Outcome::Done(None, at),
        Outcome::Done(_, _) => Outcome::Stop(Stop::Abort("the reply does not fit the request"@)),
    }
}

/// What asking for a process to be run comes to, where it matters why it could
/// not be.
pub open spec fn asked_run(log: Seq<Exchange>, at: int, op: Op, words: Seq<Seq<char>>) -> Outcome<
    Result<Finished, Seq<char>>,
> {
    match asked(log, at, op, words) {
        Outcome::Stop(s) => Outcome::Stop(s),
        Outcome::Done(Reply::Ran(Ok(f)), at) => Outcome::Done(Ok(f), at),
        Outcome::Done(Reply::Ran(Err(e)), at) => Outcome::Done(Err(e@), at),
        Outcome::Done(_, _) => Outcome::Stop(Stop::Abort("the reply does not fit the request"@)),
    }
}

/// Whether two lists of texts are the same.
fn same_words(a: &Vec<String>, b: &Vec<String>) -> (r: bool)
    ensures
        r == (texts(a@) == texts(b@)),
{
    if a.len() != b.len() {
        assert(texts(a@).len() != texts(b@).len());
        return false;
    }
    let mut i: usize = 0;
    while i < a.len()
        invariant
            i <= a@.len() == b@.len(),
            forall|j: int| 0 <= j < i ==> a@[j]@ == b@[j]@,
        decreases a@.len() - i,
    {
        if !same(a[i].as_str(), b[i].as_str()) {
            assert(texts(a@)[i as int] != texts(b@)[i as int]);
            return false;
        }
        i = i + 1;
    }
    assert(texts(a@) =~= texts(b@));
    true
}

/// Stops a command because a reply is not of the kind that was asked for.
fn misfit() -> (r: Halt)
    ensures
        r@ == Stop::Abort("the reply does not fit the request"@),
{
    Halt::Abort("the reply does not fit the request".to_string())
}

impl<'a> Run<'a> {
    /// A command at its start.
    pub fn new(log: &'a Vec<Exchange>, windows: bool) -> (r: Run<'a>)
        ensures
            r.log == log,
            r.at == 0,
            r.windows == windows,
    {
        Run { log, at: 0, windows }
    }

    /// Asks, and gives the reply if there is one.
    pub fn ask(&mut self, op: Op, words: Vec<String>) -> (r: Result<&'a Reply, Halt>)
        ensures
            goes_on(*final(self), *old(self)),
            match r {
                Ok(reply) => asked(old(self).log@, old(self).at as int, op, texts(words@))
                    == Outcome::Done(*reply, final(self).at as int),
                Err(h) => asked(old(self).log@, old(self).at as int, op, texts(words@))
                    == Outcome::<Reply>::Stop(h@),
            },
    {
        let log = self.log;
        if self.at >= log.len() {
            return Err(Halt::Ask(Request { op, words }));
        }
        let exchange: &'a Exchange = &log[self.at];
        if exchange.request.op == op && same_words(&exchange.request.words, &words) {
            self.at = self.at + 1;
            Ok(&exchange.reply)
        } else {
            Err(Halt::Astray)
        }
    }

    /// Asks for something to be done.
    pub fn ask_done(&mut self, op: Op, words: Vec<String>) -> (r: Result<(), Halt>)
        ensures
            goes_on(*final(self), *old(self)),
            came_to(
                r,
                *final(self),
                asked_done(old(self).log@, old(self).at as int, op, texts(words@)),
            ),
    {
        match self.ask(op, words)? {
            Reply::Done => Ok(()),
            _ => Err(misfit()),
        }
    }

    /// Asks for yes or no.
    pub fn ask_flag(&mut self, op: Op, words: Vec<String>) -> (r: Result<bool, Halt>)
        ensures
            goes_on(*final(self), *old(self)),
            came_to(
                r,
                *final(self),
                asked_flag(old(self).log@, old(self).at as int, op, texts(words@)),
            ),
    {
        match self.ask(op, words)? {
            Reply::Flag(b) => Ok(*b),
            _ => Err(misfit()),
        }
    }

    /// Asks for a text.
    pub fn ask_text(&mut self, op: Op, words: Vec<String>) -> (r: Result<Option<String>, Halt>)
        ensures
            goes_on(*final(self), *old(self)),
            came_to(
                r,
                *final(self),
                asked_text(old(self).log@, old(self).at as int, op, texts(words@)),
            ),
    {
        match self.ask(op, words)? {
            Reply::Text(Some(s)) => Ok(Some(s.clone())),
            Reply::Text(None) => Ok(None),
            _ => Err(misfit()),
        }
    }

    /// Asks for a process to be run.
    pub fn ask_ran(&mut self, op: Op, words: Vec<String>) -> (r: Result<
        Option<&'a Finished>,
        Halt,
    >)
        ensures
            goes_on(*final(self), *old(self)),
            match r {
                Ok(f) => asked_ran(old(self).log@, old(self).at as int, op, texts(words@))
                    == Outcome::Done(finished(f), final(self).at as int),
                Err(h) => asked_ran(old(self).log@, old(self).at as int, op, texts(words@))
                    == Outcome::<Option<Finished>>::Stop(h@),
            },
    {
        match self.ask(op, words)? {
            Reply::Ran(Ok(f)) => Ok(Some(f)),
            Reply::Ran(Err(_)) => Ok(None),
            _ => Err(misfit()),
        }
    }

    /// Asks for a process to be run, where it matters why it could not be.
    pub fn ask_run(&mut self, op: Op, words: Vec<String>) -> (r: Result<
        Result<&'a Finished, String>,
        Halt,
    >)
        ensures
            goes_on(*final(self), *old(self)),
            match r {
                Ok(Ok(f)) => asked_run(old(self).log@, old(self).at as int, op, texts(words@))
                    == Outcome::Done(Ok::<Finished, Seq<char>>(*f), final(self).at as int),
                Ok(Err(e)) => asked_run(old(self).log@, old(self).at as int, op, texts(words@))
                    == Outcome::Done(Err::<Finished, Seq<char>>(e@), final(self).at as int),
                Err(h) => asked_run(old(self).log@, old(self).at as int, op, texts(words@))
                    == Outcome::<Result<Finished, Seq<char>>>::Stop(h@),
            },
    {
        match self.ask(op, words)? {
            Reply::Ran(Ok(f)) => Ok(Ok(f)),
            Reply::Ran(Err(e)) => Ok(Err(e.clone())),
            _ => Err(misfit()),
        }
    }

    /// Asks for the names in a directory.
    pub fn ask_listing(&mut self, path: &str) -> (r: Result<
        (&'a Vec<String>, &'a Vec<String>),
        Halt,
    >)
        ensures
            goes_on(*final(self), *old(self)),
            match r {
                Ok((d, f)) => asked_listing(old(self).log@, old(self).at as int, path@)
                    == Outcome::Done((texts(d@), texts(f@)), final(self).at as int),
                Err(h) => asked_listing(old(self).log@, old(self).at as int, path@) == Outcome::<
                    (Seq<Seq<char>>, Seq<Seq<char>>),
                >::Stop(h@),
            },
    {
        let w = one(path);
        match self.ask(Op::ListDir, w)? {
            Reply::Listing(d, f) => Ok((d, f)),
            _ => Err(misfit()),
        }
    }
}

/// A list of one text.
pub fn one(a: &str) -> (r: Vec<String>)
    ensures
        texts(r@) == seq![a@],
{
    let r = vec![a.to_owned()];
    assert(texts(r@) =~= seq![a@]);
    r
}

/// A list of two texts.
pub fn two(a: &str, b: &str) -> (r: Vec<String>)
    ensures
        texts(r@) == seq![a@, b@],
{
    let r = vec![a.to_owned(), b.to_owned()];
    assert(texts(r@) =~= seq![a@, b@]);
    r
}

/// Owned copies of the texts of a list.
pub fn owned(list: Vec<&str>) -> (r: Vec<String>)
    ensures
        texts(r@) == crate::text::strs(list@),
{
    let mut out: Vec<String> = Vec::new();
    let mut i: usize = 0;
    while i < list.len()
        invariant
            i <= list@.len(),
            out@.len() == i,
            forall|j: int| 0 <= j < i ==> (#[trigger] out@[j])@ == list@[j]@,
        decreases list@.len() - i,
    {
        out.push(list[i].to_owned());
        i = i + 1;
    }
    assert(texts(out@) =~= crate::text::strs(list@));
    out
}

// ---------------------------------------------------------------------------
// What processes write.
// ---------------------------------------------------------------------------

/// The text that the standard library makes of bytes, whatever they are.
pub uninterp spec fn utf8_lossy(bytes: Seq<u8>) -> Seq<char>;

/// Turns bytes into text with `String::from_utf8_lossy`: bytes that are UTF-8
/// become the text that they encode; what any others become is [`utf8_lossy`].
#[verifier::external_body]
fn lossy(bytes: &Vec<u8>) -> (r: String)
    ensures
        r@ == utf8_lossy(bytes@),
        valid_utf8(bytes@) ==> r@ == decode_utf8(bytes@),
{
    String::from_utf8_lossy(bytes).into_owned()
}

/// How a process ended, if it could be run.
pub open spec fn finished(f: Option<&Finished>) -> Option<Finished> {
    match f {
        Some(f) => Some(*f),
        None => None,
    }
}

/// Whether a process succeeded.
pub open spec fn succeeded(f: Finished) -> bool {
    f.code == Some(0i32)
}

/// The text of bytes: that which they encode, if they are UTF-8, and what the
/// standard library makes of any others.
pub open spec fn text_of(bytes: Seq<u8>) -> Seq<char> {
    if valid_utf8(bytes) {
        decode_utf8(bytes)
    } else {
        utf8_lossy(bytes)
    }
}

/// The text of bytes.
pub fn decoded(bytes: &Vec<u8>) -> (r: String)
    ensures
        r@ == text_of(bytes@),
{
    lossy(bytes)
}

/// What a process wrote to its output, as text.
pub open spec fn said(f: Finished) -> Seq<char> {
    text_of(f.stdout@)
}

/// What a process that succeeded wrote to its output, without white space at
/// either end.
pub open spec fn captured(f: Option<Finished>) -> Option<Seq<char>> {
    match f {
        Some(f) => if succeeded(f) {
            Some(trimmed(said(f)))
        } else {
            None
        },
        None => None,
    }
}

impl Finished {
    /// Whether the process succeeded.
    pub fn success(&self) -> (r: bool)
        ensures
            r == succeeded(*self),
    {
        match self.code {
            Some(c) => c == 0,
            None => false,
        }
    }

    /// What the process wrote to its output, as text.
    pub fn output(&self) -> (r: String)
        ensures
            r@ == said(*self),
    {
        decoded(&self.stdout)
    }

    /// What the process wrote to its error output, as text.
    pub fn errors(&self) -> (r: String)
        ensures
            r@ == text_of(self.stderr@),
    {
        decoded(&self.stderr)
    }
}

/// What a process that succeeded wrote to its output, without white space at
/// either end.
pub fn capture(f: Option<&Finished>) -> (r: Option<String>)
    ensures
        crate::text::maybe(r) == captured(finished(f)),
{
    match f {
        Some(f) => if f.success() {
            Some(trim(f.output().as_str()))
        } else {
            None
        },
        None => None,
    }
}

} // verus!
