//! The committed hook configuration: which commands it lists, how it is shown,
//! and what each command becomes once the staged files are known.
use crate::document::{
    entries_ordered, entry, get_list, get_table, get_text, keys_ordered, lemma_entry_found,
    lemma_item_view, lemma_replace_entry, lemma_simple_table, lemma_with_entry, list_nodes,
    node_list, node_ordered, node_table, node_text, put_entry, read_document, simple_document,
    simple_key, simple_node, simple_table, table_nodes, take_entry, toml_parsed, with_entry,
    Document, Entries, Item, Node,
};
use crate::glob::{glob, glob_match};
use crate::paths::is_name;
use crate::quote::{quoted_list, shell_quote_list};
use crate::text::{
    begins, cat2, concat, contains, holds, maybe, replace, replaced, same, starts_with, stripped,
    texts, trim, trim_start_matches, trimmed, words, words_of,
};
use vstd::prelude::*;
use vstd::utf8::encode_utf8;

verus! {

/// The committed hook configuration.
pub const CONFIG_FILE: &'static str = ".githooks.toml";

/// The committed directory of hook scripts. A command that starts with this
/// prefix runs the named script, and all that lies under it is covered by the
/// consent hash.
pub const HOOKS_DIR: &'static str = ".githooks";

/// The client-side hooks that are shimmed. Server-side receive hooks and the
/// very hot reference-transaction hook are left out on purpose.
pub open spec fn known_hooks() -> Seq<Seq<char>> {
    seq![
        "applypatch-msg"@,
        "pre-applypatch"@,
        "post-applypatch"@,
        "pre-commit"@,
        "pre-merge-commit"@,
        "prepare-commit-msg"@,
        "commit-msg"@,
        "post-commit"@,
        "pre-rebase"@,
        "post-checkout"@,
        "post-merge"@,
        "pre-push"@,
        "post-rewrite"@,
        "pre-auto-gc"@,
    ]
}

/// The names of the hooks that are shimmed.
pub fn hook_names() -> (r: Vec<String>)
    ensures
        texts(r@) == known_hooks(),
{
    let r = vec![
        "applypatch-msg".to_string(),
        "pre-applypatch".to_string(),
        "post-applypatch".to_string(),
        "pre-commit".to_string(),
        "pre-merge-commit".to_string(),
        "prepare-commit-msg".to_string(),
        "commit-msg".to_string(),
        "post-commit".to_string(),
        "pre-rebase".to_string(),
        "post-checkout".to_string(),
        "post-merge".to_string(),
        "pre-push".to_string(),
        "post-rewrite".to_string(),
        "pre-auto-gc".to_string(),
    ];
    assert(texts(r@) =~= known_hooks());
    r
}

// ---------------------------------------------------------------------------
// Entries of a hook.
// ---------------------------------------------------------------------------

/// A single hook command.
pub struct HookCmd {
    /// The shell command.
    pub run: String,
    /// The filter on staged files, where there is one.
    pub glob: Option<String>,
}

/// What a hook command says.
pub struct Cmd {
    /// The shell command.
    pub run: Seq<char>,
    /// The filter on staged files, where there is one.
    pub glob: Option<Seq<char>>,
}

impl View for HookCmd {
    type V = Cmd;

    open spec fn view(&self) -> Cmd {
        Cmd { run: self.run@, glob: maybe(self.glob) }
    }
}

/// The command that an entry of a hook stands for: a string is the command
/// itself; a table has it under `run`, and may have a filter under `glob`.
pub open spec fn hook_cmd(n: Node) -> Option<Cmd> {
    match n {
        Node::Text(s) => Some(Cmd { run: s, glob: None }),
        Node::Table(t) => match node_text(entry(t, "run"@)) {
            Some(run) => Some(Cmd { run, glob: node_text(entry(t, "glob"@)) }),
            None => None,
        },
        _ => None,
    }
}

/// Parses one entry of a hook: a bare string or a `{ run, glob }` table.
pub fn parse_hook_cmd(item: &Item) -> (r: Option<HookCmd>)
    ensures
        match r {
            Some(c) => hook_cmd(item@) == Some(c@),
            None => hook_cmd(item@) is None,
        },
{
    proof {
        lemma_item_view(*item);
    }
    match item {
        Item::Text(s) => Some(HookCmd { run: s.clone(), glob: None }),
        Item::Table(t) => match get_text(t, "run") {
            Some(run) => {
                let glob = match get_text(t, "glob") {
                    Some(g) => Some(g.clone()),
                    None => None,
                };
                Some(HookCmd { run: run.clone(), glob })
            },
            None => None,
        },
        _ => None,
    }
}

/// The entries that a document lists for `hook`.
pub open spec fn entries_for(doc: Entries, hook: Seq<char>) -> Option<Seq<Node>> {
    match node_table(entry(doc, "hooks"@)) {
        Some(hooks) => node_list(entry(hooks, hook)),
        None => None,
    }
}

/// The entries that a document lists for `hook`.
pub fn hook_entries<'a>(doc: &'a Document, hook: &str) -> (r: Option<&'a Vec<Item>>)
    ensures
        match r {
            Some(v) => entries_for(table_nodes(doc@), hook@) == Some(list_nodes(v@)),
            None => entries_for(table_nodes(doc@), hook@) is None,
        },
{
    match get_table(doc, "hooks") {
        Some(hooks) => get_list(hooks, hook),
        None => None,
    }
}

// ---------------------------------------------------------------------------
// Showing the configuration.
// ---------------------------------------------------------------------------

/// How one entry of a hook is shown.
pub open spec fn entry_shown(n: Node) -> Seq<char> {
    match hook_cmd(n) {
        Some(c) => "  "@ + c.run + (match c.glob {
            Some(g) => "  (glob: "@ + g + ")"@,
            None => seq![],
        }) + "\n"@,
        None => "  <unparseable entry>\n"@,
    }
}

/// How the entries of a hook are shown.
pub open spec fn list_shown(list: Seq<Node>) -> Seq<char> {
    concat(Seq::new(list.len(), |i: int| entry_shown(list[i])))
}

/// How a hook is shown: its name, then its entries. What is no array is left out.
pub open spec fn hook_shown(hook: (Seq<char>, Node)) -> Seq<char> {
    match hook.1 {
        Node::List(list) => "["@ + hook.0 + "]\n"@ + list_shown(list),
        _ => seq![],
    }
}

/// How the hooks of a configuration are shown.
pub open spec fn hooks_shown(hooks: Entries) -> Seq<char> {
    concat(Seq::new(hooks.len(), |i: int| hook_shown(hooks[i])))
}

/// How a configuration is shown, given what became of parsing its text: hook by
/// hook, or the text itself when it has no table of hooks.
pub open spec fn config_shown(parsed: Result<Entries, Seq<char>>, raw: Seq<char>) -> Seq<char> {
    match parsed {
        Ok(doc) => match node_table(entry(doc, "hooks"@)) {
            Some(hooks) => hooks_shown(hooks),
            None => trimmed(raw) + "\n"@,
        },
        Err(_) => trimmed(raw) + "\n"@,
    }
}

/// Shows one command of a hook.
fn show_entry(item: &Item) -> (r: String)
    ensures
        r@ == entry_shown(item@),
{
    match parse_hook_cmd(item) {
        Some(c) => {
            let mut s = cat2("  ", c.run.as_str());
            match c.glob {
                Some(g) => {
                    let ghost start = s@;
                    s.append("  (glob: ");
                    s.append(g.as_str());
                    s.append(")");
                    assert(s@ =~= start + ("  (glob: "@ + g@ + ")"@));
                },
                None => {
                    assert(s@ + Seq::<char>::empty() =~= s@);
                },
            }
            s.append("\n");
            s
        },
        None => "  <unparseable entry>\n".to_string(),
    }
}

/// Shows the commands of a hook.
fn show_list(list: &Vec<Item>) -> (r: String)
    ensures
        r@ == list_shown(list_nodes(list@)),
{
    let ghost shown = Seq::new(list@.len(), |i: int| entry_shown(list_nodes(list@)[i]));
    let mut s = String::new();
    let mut i: usize = 0;
    while i < list.len()
        invariant
            i <= list@.len(),
            shown == Seq::new(list@.len(), |i: int| entry_shown(list_nodes(list@)[i])),
            s@ == concat(shown.take(i as int)),
        decreases list@.len() - i,
    {
        s.append(show_entry(&list[i]).as_str());
        assert(shown.take(i + 1).drop_last() =~= shown.take(i as int));
        i = i + 1;
    }
    assert(shown.take(i as int) =~= shown);
    s
}

/// Shows the hooks, one after the other.
fn show_hooks(hooks: &Vec<(String, Item)>) -> (r: String)
    ensures
        r@ == hooks_shown(table_nodes(hooks@)),
{
    let ghost shown = Seq::new(hooks@.len(), |i: int| hook_shown(table_nodes(hooks@)[i]));
    let mut s = String::new();
    let mut i: usize = 0;
    while i < hooks.len()
        invariant
            i <= hooks@.len(),
            shown == Seq::new(hooks@.len(), |i: int| hook_shown(table_nodes(hooks@)[i])),
            s@ == concat(shown.take(i as int)),
        decreases hooks@.len() - i,
    {
        let ghost start = s@;
        assert(shown.take(i + 1).drop_last() =~= shown.take(i as int));
        proof {
            lemma_item_view(hooks@[i as int].1);
        }
        if let Item::List(list) = &hooks[i].1 {
            s.append("[");
            s.append(hooks[i].0.as_str());
            s.append("]\n");
            s.append(show_list(list).as_str());
            assert(s@ =~= start + hook_shown(table_nodes(hooks@)[i as int]));
        } else {
            assert(s@ =~= start + hook_shown(table_nodes(hooks@)[i as int]));
        }
        i = i + 1;
    }
    assert(shown.take(i as int) =~= shown);
    s
}

/// Human-readable rendering of a configuration whose text parsed to `doc`, or
/// did not parse.
pub fn render_document(doc: &Result<Document, String>, raw: &str) -> (r: String)
    ensures
        r@ == config_shown(
            match *doc {
                Ok(d) => Ok(table_nodes(d@)),
                Err(e) => Err(e@),
            },
            raw@,
        ),
{
    match doc {
        Ok(d) => match get_table(d, "hooks") {
            Some(hooks) => show_hooks(hooks),
            None => cat2(trim(raw).as_str(), "\n"),
        },
        Err(_) => cat2(trim(raw).as_str(), "\n"),
    }
}

/// Human-readable rendering of the configuration for prompts and status.
/// Table-form entries become `run  (glob: ...)`, so that the reader sees the
/// command and its filter at a glance; a text without a table of hooks is shown
/// as it is.
pub fn render_config(raw: &str) -> (r: String)
    ensures
        r@ == config_shown(toml_parsed(raw@), raw@),
{
    render_document(&read_document(raw), raw)
}

// ---------------------------------------------------------------------------
// Staged files.
// ---------------------------------------------------------------------------

/// The staged files that a command is about: those that its filter matches, or
/// all of them when it has none.
pub open spec fn files_matched(
    filter: Option<Seq<char>>,
    staged: Seq<Seq<char>>,
) -> Seq<Seq<char>> {
    match filter {
        Some(g) => staged.filter(|f: Seq<char>| glob(encode_utf8(g), encode_utf8(f))),
        None => staged,
    }
}

/// The shell command that `c` becomes for the staged files, unless its filter
/// matches none of them.
pub open spec fn command_for(c: Cmd, staged: Seq<Seq<char>>) -> Option<Seq<char>> {
    let matched = files_matched(c.glob, staged);
    if c.glob is Some && matched.len() == 0 {
        None
    } else {
        Some(replaced(c.run, "{staged_files}"@, quoted_list(matched)))
    }
}

/// The staged files that a filter lets through.
fn match_files(filter: &Option<String>, staged: &Vec<String>) -> (r: Vec<String>)
    ensures
        texts(r@) == files_matched(maybe(*filter), texts(staged@)),
{
    let ghost all = texts(staged@);
    match filter {
        Some(g) => {
            let ghost keep = |f: Seq<char>| glob(encode_utf8(g@), encode_utf8(f));
            let mut out: Vec<String> = Vec::new();
            let mut i: usize = 0;
            assert(texts(out@) =~= all.take(0).filter(keep)) by {
                reveal(Seq::filter);
            }
            while i < staged.len()
                invariant
                    i <= staged@.len(),
                    all == texts(staged@),
                    keep == (|f: Seq<char>| glob(encode_utf8(g@), encode_utf8(f))),
                    texts(out@) == all.take(i as int).filter(keep),
                decreases staged@.len() - i,
            {
                let ghost seen = out@;
                assert(all.take(i + 1).drop_last() =~= all.take(i as int));
                if glob_match(g.as_str(), staged[i].as_str()) {
                    out.push(staged[i].clone());
                    assert(texts(out@) =~= texts(seen).push(staged@[i as int]@));
                }
                assert(texts(out@) =~= all.take(i + 1).filter(keep)) by {
                    reveal(Seq::filter);
                }
                i = i + 1;
            }
            assert(all.take(i as int) =~= all);
            out
        },
        None => {
            let mut out: Vec<String> = Vec::new();
            let mut i: usize = 0;
            while i < staged.len()
                invariant
                    i <= staged@.len(),
                    out@.len() == i,
                    forall|j: int| 0 <= j < i ==> (#[trigger] out@[j])@ == staged@[j]@,
                decreases staged@.len() - i,
            {
                out.push(staged[i].clone());
                i = i + 1;
            }
            assert(texts(out@) =~= all);
            out
        },
    }
}

/// Where the placeholder does not stand, replacing it changes nothing.
proof fn lemma_replaced_none(s: Seq<char>, from: Seq<char>, to: Seq<char>)
    requires
        from.len() > 0,
        !holds(s, from),
    ensures
        replaced(s, from, to) == s,
    decreases s.len(),
{
    if s.len() > 0 {
        assert(s.skip(0) =~= s);
        assert(!begins(s.skip(0), from));
        let t = s.drop_first();
        assert forall|i: int| 0 <= i <= t.len() implies !#[trigger] begins(t.skip(i), from) by {
            assert(t.skip(i) =~= s.skip(i + 1));
            assert(!begins(s.skip(i + 1), from));
        }
        lemma_replaced_none(t, from, to);
        assert(seq![s[0]] + t =~= s);
    }
}

/// What a command becomes for the staged files. A filter gates the command on
/// the files that it matches, and only those replace `{staged_files}`; without a
/// filter every staged file does. `None` means that the command is skipped.
pub fn prepare(c: &HookCmd, staged: &Vec<String>) -> (r: Option<String>)
    ensures
        maybe(r) == command_for(c@, texts(staged@)),
{
    let matched = match_files(&c.glob, staged);
    proof {
        reveal_strlit("{staged_files}");
    }
    assert(texts(matched@).len() == matched@.len());
    if c.glob.is_some() && matched.len() == 0 {
        return None;
    }
    if contains(c.run.as_str(), "{staged_files}") {
        Some(replace(c.run.as_str(), "{staged_files}", shell_quote_list(&matched).as_str()))
    } else {
        proof {
            lemma_replaced_none(c.run@, "{staged_files}"@, quoted_list(texts(matched@)));
        }
        Some(c.run.clone())
    }
}

// ---------------------------------------------------------------------------
// Files that a command refers to.
// ---------------------------------------------------------------------------

/// The repository file that a word of a command may refer to: a word with a `/`
/// in it, without the `./` in front, unless it names the configuration or lies
/// in the directory of hook scripts, whose content consent covers.
pub open spec fn word_ref(word: Seq<char>) -> Option<Seq<char>> {
    let path = stripped(word, "./"@);
    if !begins(word, "./"@) && !word.contains('/') {
        None
    } else if begins(path, HOOKS_DIR@ + "/"@) || path == CONFIG_FILE@ {
        None
    } else {
        Some(path)
    }
}

/// A list of the value, if there is one.
pub open spec fn at_most_one<A>(o: Option<A>) -> Seq<A> {
    match o {
        Some(a) => seq![a],
        None => seq![],
    }
}

/// The files that the words of a command may refer to.
pub open spec fn words_refs(list: Seq<Seq<char>>) -> Seq<Seq<char>> {
    concat(Seq::new(list.len(), |i: int| at_most_one(word_ref(list[i]))))
}

/// The files that an entry of a hook may refer to.
pub open spec fn entry_refs(n: Node) -> Seq<Seq<char>> {
    match hook_cmd(n) {
        Some(c) => words_refs(words_of(c.run)),
        None => seq![],
    }
}

/// The files that a hook may refer to.
pub open spec fn hook_refs(hook: (Seq<char>, Node)) -> Seq<Seq<char>> {
    match hook.1 {
        Node::List(list) => concat(Seq::new(list.len(), |i: int| entry_refs(list[i]))),
        _ => seq![],
    }
}

/// The files that the commands of a document may refer to, in the order in
/// which they are named.
pub open spec fn document_refs(doc: Entries) -> Seq<Seq<char>> {
    match node_table(entry(doc, "hooks"@)) {
        Some(hooks) => concat(Seq::new(hooks.len(), |i: int| hook_refs(hooks[i]))),
        None => seq![],
    }
}

/// Whether a text holds a `/`.
fn has_slash(s: &str) -> (r: bool)
    ensures
        r == s@.contains('/'),
{
    proof {
        reveal_strlit("/");
    }
    let r = contains(s, "/");
    proof {
        let one = "/"@;
        if s@.contains('/') {
            let i = choose|i: int| 0 <= i < s@.len() && s@[i] == '/';
            assert(s@.skip(i).take(1) =~= one);
            assert(begins(s@.skip(i), one));
        }
        if holds(s@, one) {
            let i = choose|i: int| 0 <= i <= s@.len() && #[trigger] begins(s@.skip(i), one);
            assert(s@.skip(i).take(1)[0] == '/');
            assert(s@[i] == '/');
        }
    }
    r
}

/// The repository file that a word of a command may refer to.
fn refer(word: &str) -> (r: Option<String>)
    ensures
        maybe(r) == word_ref(word@),
{
    proof {
        reveal_strlit("./");
    }
    if !starts_with(word, "./") && !has_slash(word) {
        return None;
    }
    let path = trim_start_matches(word, "./");
    if starts_with(path.as_str(), cat2(HOOKS_DIR, "/").as_str()) || same(
        path.as_str(),
        CONFIG_FILE,
    ) {
        None
    } else {
        Some(path)
    }
}

/// Appends the files that an entry may refer to.
fn add_refs(item: &Item, out: &mut Vec<String>)
    ensures
        texts(final(out)@) == texts(old(out)@) + entry_refs(item@),
{
    let ghost start = texts(out@);
    match parse_hook_cmd(item) {
        Some(c) => {
            let list = words(c.run.as_str());
            let ghost ws = words_of(c.run@);
            let ghost found = Seq::new(ws.len(), |i: int| at_most_one(word_ref(ws[i])));
            let mut i: usize = 0;
            assert(start + concat(found.take(0)) =~= start);
            while i < list.len()
                invariant
                    i <= list@.len(),
                    ws == texts(list@),
                    found == Seq::new(ws.len(), |i: int| at_most_one(word_ref(ws[i]))),
                    texts(out@) == start + concat(found.take(i as int)),
                decreases list@.len() - i,
            {
                let ghost seen = out@;
                assert(found.take(i + 1).drop_last() =~= found.take(i as int));
                assert(found[i as int] == at_most_one(word_ref(ws[i as int])));
                if let Some(path) = refer(list[i].as_str()) {
                    out.push(path);
                    assert(texts(out@) =~= texts(seen) + seq![path@]);
                }
                assert(texts(out@) =~= start + concat(found.take(i + 1)));
                i = i + 1;
            }
            assert(found.take(i as int) =~= found);
        },
        None => {
            assert(start + entry_refs(item@) =~= start);
        },
    }
}

/// The files that the commands of a document may refer to.
pub fn candidates(doc: &Document) -> (r: Vec<String>)
    ensures
        texts(r@) == document_refs(table_nodes(doc@)),
{
    let mut out: Vec<String> = Vec::new();
    let hooks = match get_table(doc, "hooks") {
        Some(hooks) => hooks,
        None => {
            assert(texts(out@) =~= document_refs(table_nodes(doc@)));
            return out;
        },
    };
    let ghost nodes = table_nodes(hooks@);
    let ghost found = Seq::new(nodes.len(), |i: int| hook_refs(nodes[i]));
    let mut i: usize = 0;
    assert(texts(out@) =~= concat(found.take(0)));
    while i < hooks.len()
        invariant
            i <= hooks@.len(),
            nodes == table_nodes(hooks@),
            found == Seq::new(nodes.len(), |i: int| hook_refs(nodes[i])),
            texts(out@) == concat(found.take(i as int)),
        decreases hooks@.len() - i,
    {
        let ghost start = texts(out@);
        proof {
            lemma_item_view(hooks@[i as int].1);
        }
        assert(found.take(i + 1).drop_last() =~= found.take(i as int));
        if let Item::List(list) = &hooks[i].1 {
            let ghost inner = list_nodes(list@);
            let ghost part = Seq::new(inner.len(), |i: int| entry_refs(inner[i]));
            let mut k: usize = 0;
            assert(start + concat(part.take(0)) =~= start);
            while k < list.len()
                invariant
                    k <= list@.len(),
                    inner == list_nodes(list@),
                    part == Seq::new(inner.len(), |i: int| entry_refs(inner[i])),
                    texts(out@) == start + concat(part.take(k as int)),
                decreases list@.len() - k,
            {
                add_refs(&list[k], &mut out);
                assert(part.take(k + 1).drop_last() =~= part.take(k as int));
                assert(texts(out@) =~= start + concat(part.take(k + 1)));
                k = k + 1;
            }
            assert(part.take(k as int) =~= part);
            assert(nodes[i as int].1 == Node::List(inner));
            assert(hook_refs(nodes[i as int]) == concat(part));
        } else {
            assert(start + hook_refs(nodes[i as int]) =~= start);
        }
        i = i + 1;
    }
    assert(found.take(i as int) =~= found);
    out
}

// ---------------------------------------------------------------------------
// Adding a command.
// ---------------------------------------------------------------------------

/// The document with `cmd` appended to what it lists for `hook`, or the reason
/// why it cannot be.
pub open spec fn with_command(doc: Entries, hook: Seq<char>, cmd: Seq<char>) -> Result<
    Entries,
    Seq<char>,
> {
    let hooks = match entry(doc, "hooks"@) {
        Some(n) => n,
        None => Node::Table(seq![]),
    };
    match hooks {
        Node::Table(t) => {
            let list = match entry(t, hook) {
                Some(n) => n,
                None => Node::List(seq![]),
            };
            match list {
                Node::List(l) => Ok(
                    with_entry(
                        doc,
                        "hooks"@,
                        Node::Table(with_entry(t, hook, Node::List(l.push(Node::Text(cmd))))),
                    ),
                ),
                _ => Err("hook entry must be an array"@),
            }
        },
        _ => Err("[hooks] must be a table"@),
    }
}

/// Appends a command to what a document lists for a hook.
pub fn add_command(doc: Document, hook: &str, cmd: &str) -> (r: Result<Document, String>)
    requires
        entries_ordered(table_nodes(doc@)),
    ensures
        match r {
            Ok(d) => with_command(table_nodes(doc@), hook@, cmd@) == Ok::<Entries, Seq<char>>(
                table_nodes(d@),
            ) && entries_ordered(table_nodes(d@)),
            Err(e) => with_command(table_nodes(doc@), hook@, cmd@) == Err::<Entries, Seq<char>>(e@),
        },
{
    broadcast use lemma_item_view;

    let ghost whole = table_nodes(doc@);
    let mut doc = doc;
    let mut hooks = match take_entry(&mut doc, "hooks") {
        Some(Item::Table(t)) => t,
        Some(_) => return Err("[hooks] must be a table".to_string()),
        None => Vec::new(),
    };
    let ghost inner = table_nodes(hooks@);
    assert(inner == match node_table(entry(whole, "hooks"@)) {
        Some(t) => t,
        None => seq![],
    });
    let mut list = match take_entry(&mut hooks, hook) {
        Some(Item::List(l)) => l,
        Some(_) => return Err("hook entry must be an array".to_string()),
        None => Vec::new(),
    };
    let ghost before = list_nodes(list@);
    assert(before == match node_list(entry(inner, hook@)) {
        Some(l) => l,
        None => seq![],
    });
    assert(node_ordered(Node::List(before)));
    list.push(Item::Text(cmd.to_owned()));
    let longer = Item::List(list);
    proof {
        assert(list_nodes(list@) =~= before.push(Node::Text(cmd@)));
        lemma_replace_entry(inner, hook@, longer@);
        assert forall|i: int| 0 <= i < list_nodes(list@).len() implies node_ordered(
            #[trigger] list_nodes(list@)[i],
        ) by {
            if i < before.len() {
                assert(node_ordered(before[i]));
            }
        }
    }
    put_entry(&mut hooks, hook, longer);
    let changed = Item::Table(hooks);
    proof {
        lemma_replace_entry(whole, "hooks"@, changed@);
        assert(node_ordered(longer@));
        assert(entries_ordered(table_nodes(hooks@)));
        assert(node_ordered(changed@));
        assert(changed@ == Node::Table(with_entry(inner, hook@, longer@)));
        assert(longer@ == Node::List(before.push(Node::Text(cmd@))));
    }
    put_entry(&mut doc, "hooks", changed);
    Ok(doc)
}

// ---------------------------------------------------------------------------
// Laws.
// ---------------------------------------------------------------------------

/// A command that was added stands at the end of the list of its hook. The lists
/// of all other hooks, and all else in the configuration, are what they were.
pub proof fn law_command_added(doc: Entries, hook: Seq<char>, cmd: Seq<char>)
    requires
        entries_ordered(doc),
        with_command(doc, hook, cmd) is Ok,
    ensures
        entries_for(with_command(doc, hook, cmd)->Ok_0, hook) == Some(
            (match entries_for(doc, hook) {
                Some(list) => list,
                None => seq![],
            }).push(Node::Text(cmd)),
        ),
        forall|h: Seq<char>|
            h != hook ==> #[trigger] entries_for(with_command(doc, hook, cmd)->Ok_0, h)
                == entries_for(doc, h),
        forall|k: Seq<char>|
            k != "hooks"@ ==> #[trigger] entry(with_command(doc, hook, cmd)->Ok_0, k) == entry(
                doc,
                k,
            ),
{
    let t = match entry(doc, "hooks"@) {
        Some(Node::Table(t)) => t,
        _ => seq![],
    };
    lemma_entry_found(doc, "hooks"@);
    assert(keys_ordered(t)) by {
        if entry(doc, "hooks"@) is Some {
            let i = choose|i: int|
                0 <= i < doc.len() && (#[trigger] doc[i]) == ("hooks"@, Node::Table(t));
            assert(node_ordered(doc[i].1));
        }
    }
    let list = match entry(t, hook) {
        Some(Node::List(l)) => l,
        _ => seq![],
    };
    let more = Node::List(list.push(Node::Text(cmd)));
    lemma_with_entry(t, hook, more);
    lemma_with_entry(doc, "hooks"@, Node::Table(with_entry(t, hook, more)));
    if entry(doc, "hooks"@) is None {
        assert(entries_for(doc, hook) is None);
    }
}

/// A command without a filter always runs. One with a filter is skipped exactly
/// when no staged file matches it.
pub proof fn law_skipped_without_match(c: Cmd, staged: Seq<Seq<char>>)
    ensures
        command_for(c, staged) is None <==> (c.glob matches Some(g) && forall|i: int|
            0 <= i < staged.len() ==> !glob(encode_utf8(g), encode_utf8(#[trigger] staged[i]))),
{
    if let Some(g) = c.glob {
        let keep = |f: Seq<char>| glob(encode_utf8(g), encode_utf8(f));
        let matched = files_matched(c.glob, staged);
        assert(matched == staged.filter(keep));
        broadcast use vstd::seq_lib::group_filter_ensures;

        if exists|i: int|
            0 <= i < staged.len() && glob(encode_utf8(g), encode_utf8(#[trigger] staged[i])) {
            let i = choose|i: int|
                0 <= i < staged.len() && glob(encode_utf8(g), encode_utf8(#[trigger] staged[i]));
            assert(keep(staged[i]));
            assert(matched.contains(staged[i]));
        }
        if matched.len() > 0 {
            assert(keep(matched[0]));
            assert(matched.contains(matched[0]));
            staged.lemma_filter_contains_rev(keep, matched[0]);
        }
    }
}

/// A simple configuration stays simple when a simple command is added.
pub proof fn lemma_simple_command(doc: Entries, hook: Seq<char>, cmd: Seq<char>)
    requires
        entries_ordered(doc),
        simple_document(doc),
        simple_key(hook),
        with_command(doc, hook, cmd) is Ok,
    ensures
        simple_document(with_command(doc, hook, cmd)->Ok_0),
{
    reveal_strlit("hooks");
    assert(simple_key("hooks"@));
    let t = match entry(doc, "hooks"@) {
        Some(Node::Table(t)) => t,
        _ => seq![],
    };
    lemma_entry_found(doc, "hooks"@);
    if entry(doc, "hooks"@) is Some {
        let i = choose|i: int|
            0 <= i < doc.len() && (#[trigger] doc[i]) == ("hooks"@, Node::Table(t));
        assert(node_ordered(doc[i].1));
        assert(simple_node(doc[i].1, 16));
    }
    assert(simple_table(t, 15));
    let list = match entry(t, hook) {
        Some(Node::List(l)) => l,
        _ => seq![],
    };
    lemma_entry_found(t, hook);
    if entry(t, hook) is Some {
        let i = choose|i: int| 0 <= i < t.len() && (#[trigger] t[i]) == (hook, Node::List(list));
        assert(simple_node(t[i].1, 15));
    }
    let longer = list.push(Node::Text(cmd));
    assert forall|i: int| 0 <= i < longer.len() implies simple_node(#[trigger] longer[i], 14) by {
        if i < list.len() {
            assert(simple_node(list[i], 14));
        }
    }
    let more = Node::List(longer);
    assert(simple_node(more, 15));
    lemma_simple_table(t, hook, more, 15);
    let after = Node::Table(with_entry(t, hook, more));
    assert(simple_node(after, 16));
    lemma_simple_table(doc, "hooks"@, after, 16);
}

/// No two hooks have the same name, and each is a single name.
pub proof fn lemma_hooks_differ()
    ensures
        known_hooks().no_duplicates(),
        forall|i: int|
            0 <= i < known_hooks().len() ==> is_name(true, #[trigger] known_hooks()[i])
                && simple_key(known_hooks()[i]),
{
    reveal_strlit("applypatch-msg");
    reveal_strlit("pre-applypatch");
    reveal_strlit("post-applypatch");
    reveal_strlit("pre-commit");
    reveal_strlit("pre-merge-commit");
    reveal_strlit("prepare-commit-msg");
    reveal_strlit("commit-msg");
    reveal_strlit("post-commit");
    reveal_strlit("pre-rebase");
    reveal_strlit("post-checkout");
    reveal_strlit("post-merge");
    reveal_strlit("pre-push");
    reveal_strlit("post-rewrite");
    reveal_strlit("pre-auto-gc");
    reveal_strlit(".");
    reveal_strlit("..");
    let h = known_hooks();
    assert(h[0].len() == 14 && h[0][0] == 'a' && h[0][1] == 'p');
    assert(h[1].len() == 14 && h[1][0] == 'p' && h[1][1] == 'r');
    assert(h[2].len() == 15 && h[2][0] == 'p' && h[2][1] == 'o');
    assert(h[3].len() == 10 && h[3][0] == 'p' && h[3][1] == 'r' && h[3][4] == 'c');
    assert(h[4].len() == 16 && h[4][0] == 'p' && h[4][1] == 'r');
    assert(h[5].len() == 18 && h[5][0] == 'p' && h[5][1] == 'r');
    assert(h[6].len() == 10 && h[6][0] == 'c' && h[6][1] == 'o');
    assert(h[7].len() == 11 && h[7][0] == 'p' && h[7][1] == 'o');
    assert(h[8].len() == 10 && h[8][0] == 'p' && h[8][1] == 'r' && h[8][4] == 'r');
    assert(h[9].len() == 13 && h[9][0] == 'p' && h[9][1] == 'o');
    assert(h[10].len() == 10 && h[10][0] == 'p' && h[10][1] == 'o');
    assert(h[11].len() == 8 && h[11][0] == 'p' && h[11][1] == 'r');
    assert(h[12].len() == 12 && h[12][0] == 'p' && h[12][1] == 'o');
    assert(h[13].len() == 11 && h[13][0] == 'p' && h[13][1] == 'r');
}

} // verus!
