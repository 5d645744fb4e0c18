//! What a configuration says: which commands it lists, what each becomes, how it is shown,
//! and which files it names.
use crate::config::{
    command_for, config_shown, document_refs, entries_for, entry_refs, entry_shown, files_matched,
    hook_cmd, hook_refs, hook_shown, hooks_shown, list_shown, with_command, word_ref, Cmd,
};
use crate::document::{
    entries_of, entry, keys_ordered, lemma_entry_found, lemma_with_entry, toml_parsed, with_entry,
    Entries, Node,
};
use crate::glob::glob;
use crate::order::{lemma_irreflexive, precedes, Order};
use crate::quote::quoted_list;
use crate::spelling::{
    law_concat, law_replaced, law_replaced_nowhere, law_stripped, law_stripped_of, times,
};
use crate::text::{begins, concat, holds, trimmed, words_of};
use vstd::prelude::*;
use vstd::utf8::encode_utf8;

verus! {

// ---------------------------------------------------------------------------
// Tables and entries.
// ---------------------------------------------------------------------------

/// Looking up a key in a table finds the value that stands with it, and nothing where no
/// entry has it.
pub proof fn law_table_entry(t: Entries, key: Seq<char>, v: Node)
    requires
        keys_ordered(t),
    ensures
        entry(t, key) == Some(v) <==> t.contains((key, v)),
        entry(t, key) is None <==> forall|i: int| 0 <= i < t.len() ==> (#[trigger] t[i]).0 != key,
    decreases t.len(),
{
    lemma_entry_found(t, key);
    if t.len() > 0 {
        let rest = t.drop_first();
        assert forall|i: int, j: int| 0 <= i < j < rest.len() implies precedes(
            Order::Text,
            #[trigger] rest[i].0,
            #[trigger] rest[j].0,
        ) by {
            assert(rest[i] == t[i + 1] && rest[j] == t[j + 1]);
        }
        law_table_entry(rest, key, v);
        if t[0].0 == key {
            lemma_irreflexive(Order::Text, key);
            if t.contains((key, v)) {
                let i = choose|i: int| 0 <= i < t.len() && t[i] == (key, v);
                if i > 0 {
                    assert(precedes(Order::Text, t[0].0, t[i].0));
                }
            }
            if entry(t, key) == Some(v) {
                assert(t[0] == (key, v));
            }
        } else {
            if t.contains((key, v)) {
                let i = choose|i: int| 0 <= i < t.len() && t[i] == (key, v);
                assert(rest[i - 1] == (key, v));
            }
            if rest.contains((key, v)) {
                let i = choose|i: int| 0 <= i < rest.len() && rest[i] == (key, v);
                assert(t[i + 1] == (key, v));
            }
            if entry(t, key) is None {
                assert forall|i: int| 0 <= i < t.len() implies (#[trigger] t[i]).0 != key by {
                    if i > 0 {
                        assert(rest[i - 1].0 != key);
                    }
                }
            }
            if forall|i: int| 0 <= i < t.len() ==> (#[trigger] t[i]).0 != key {
                assert forall|i: int| 0 <= i < rest.len() implies (#[trigger] rest[i]).0
                    != key by {
                    assert(t[i + 1].0 != key);
                }
            }
        }
    }
}

/// A string is a command without a filter. A table is one if it has a string under `run`,
/// and that string is the command; its filter is the string under `glob`, if there is one.
/// Nothing else is a command.
pub proof fn law_commands(n: Node)
    ensures
        n matches Node::Text(s) ==> hook_cmd(n) == Some(Cmd { run: s, glob: None }),
        n matches Node::Table(t) ==> (hook_cmd(n) is Some <==> entry(t, "run"@) matches Some(
            Node::Text(_),
        )),
        n matches Node::Table(t) ==> (hook_cmd(n) matches Some(c) ==> entry(t, "run"@) == Some(
            Node::Text(c.run),
        )),
        n matches Node::Table(t) ==> (hook_cmd(n) matches Some(c) ==> (c.glob matches Some(g)
            ==> entry(
            t,
            "glob"@,
        ) == Some(Node::Text(g)))),
        n matches Node::Table(t) ==> (hook_cmd(n) matches Some(c) ==> (c.glob is None ==> !(entry(
            t,
            "glob"@,
        ) matches Some(Node::Text(_))))),
        !(n is Text) && !(n is Table) ==> hook_cmd(n) is None,
{
}

/// The list of a hook is the array under its name, in the table under `hooks`.
pub proof fn law_list_of_hook(doc: Entries, hook: Seq<char>, list: Seq<Node>)
    ensures
        entries_for(doc, hook) == Some(list) <==> (entry(doc, "hooks"@) matches Some(
            Node::Table(hooks),
        ) && entry(hooks, hook) == Some(Node::List(list))),
{
}

/// A command can be added where there is no `hooks` or it is a table, and where there is no
/// entry for the hook or it is an array.
pub proof fn law_command_can_be_added(doc: Entries, hook: Seq<char>, cmd: Seq<char>)
    ensures
        with_command(doc, hook, cmd) is Ok <==> (match entry(doc, "hooks"@) {
            None => true,
            Some(Node::Table(hooks)) => match entry(hooks, hook) {
                None => true,
                Some(Node::List(_)) => true,
                _ => false,
            },
            _ => false,
        }),
{
    let none = Seq::<(Seq<char>, Node)>::empty();
    assert(entry(none, hook) is None);
}

// ---------------------------------------------------------------------------
// Staged files.
// ---------------------------------------------------------------------------

/// A filter is applied to one staged file after the other: those that it matches stay, in
/// their order, and no others. Without a filter all stay.
pub proof fn law_files_matched(g: Seq<char>, a: Seq<Seq<char>>, b: Seq<Seq<char>>, f: Seq<char>)
    ensures
        files_matched(None, a) == a,
        files_matched(Some(g), Seq::<Seq<char>>::empty()) == Seq::<Seq<char>>::empty(),
        files_matched(Some(g), seq![f]) == (if glob(encode_utf8(g), encode_utf8(f)) {
            seq![f]
        } else {
            seq![]
        }),
        files_matched(Some(g), a + b) == files_matched(Some(g), a) + files_matched(Some(g), b),
{
    let keep = |x: Seq<char>| glob(encode_utf8(g), encode_utf8(x));
    Seq::filter_distributes_over_add(a, b, keep);
    let none = Seq::<Seq<char>>::empty();
    assert(none.filter(keep) =~= none) by {
        reveal(Seq::filter);
    }
    let one = seq![f];
    assert(one.drop_last() =~= none);
    assert(one.filter(keep) =~= (if keep(f) {
        seq![f]
    } else {
        seq![]
    })) by {
        reveal(Seq::filter);
    }
}

/// The placeholder of a command stands for the staged files that its filter matches, each
/// quoted, wherever it stands; all else stays as it is.
pub proof fn law_placeholder(
    a: Seq<char>,
    b: Seq<char>,
    filter: Option<Seq<char>>,
    staged: Seq<Seq<char>>,
)
    requires
        forall|i: int|
            0 <= i < a.len() ==> !begins(
                #[trigger] (a + "{staged_files}"@ + b).skip(i),
                "{staged_files}"@,
            ),
        filter is Some ==> files_matched(filter, staged).len() > 0,
    ensures
        command_for(Cmd { run: b, glob: filter }, staged) is Some,
        command_for(Cmd { run: a + "{staged_files}"@ + b, glob: filter }, staged) == Some(
            a + quoted_list(files_matched(filter, staged)) + command_for(
                Cmd { run: b, glob: filter },
                staged,
            )->Some_0,
        ),
{
    reveal_strlit("{staged_files}");
    law_replaced(a, "{staged_files}"@, b, quoted_list(files_matched(filter, staged)));
}

/// A command without the placeholder is run as it is.
pub proof fn law_no_placeholder(c: Cmd, staged: Seq<Seq<char>>)
    requires
        !holds(c.run, "{staged_files}"@),
    ensures
        command_for(c, staged) matches Some(command) ==> command == c.run,
{
    reveal_strlit("{staged_files}");
    law_replaced_nowhere(
        c.run,
        "{staged_files}"@,
        quoted_list(files_matched(c.glob, staged)),
    );
}

// ---------------------------------------------------------------------------
// Showing.
// ---------------------------------------------------------------------------

/// A configuration is shown hook by hook, each by its name in brackets and its commands,
/// one per line, with their filters. What is no command is said to be none, and what is no
/// array is left out. A text without a table of hooks is shown as it is.
pub proof fn law_config_shown(
    doc: Entries,
    raw: Seq<char>,
    error: Seq<char>,
    hooks: Entries,
    more: Entries,
    hook: Seq<char>,
    list: Seq<Node>,
    rest: Seq<Node>,
    n: Node,
)
    ensures
        entry(doc, "hooks"@) == Some(Node::Table(hooks)) ==> config_shown(
            Ok::<Entries, Seq<char>>(doc),
            raw,
        ) == hooks_shown(hooks),
        !(entry(doc, "hooks"@) matches Some(Node::Table(_))) ==> config_shown(
            Ok::<Entries, Seq<char>>(doc),
            raw,
        ) == trimmed(raw) + "\n"@,
        config_shown(Err::<Entries, Seq<char>>(error), raw) == trimmed(raw) + "\n"@,
        hooks_shown(hooks + more) == hooks_shown(hooks) + hooks_shown(more),
        hooks_shown(Seq::<(Seq<char>, Node)>::empty()) == Seq::<char>::empty(),
        hooks_shown(seq![(hook, Node::List(list))]) == "["@ + hook + "]\n"@ + list_shown(list),
        !(n is List) ==> hooks_shown(seq![(hook, n)]) == Seq::<char>::empty(),
        list_shown(list + rest) == list_shown(list) + list_shown(rest),
        list_shown(Seq::<Node>::empty()) == Seq::<char>::empty(),
        list_shown(seq![n]) == (match hook_cmd(n) {
            Some(c) => match c.glob {
                Some(g) => "  "@ + c.run + "  (glob: "@ + g + ")\n"@,
                None => "  "@ + c.run + "\n"@,
            },
            None => "  <unparseable entry>\n"@,
        }),
{
    let h = |t: Entries| Seq::new(t.len(), |i: int| hook_shown(t[i]));
    let e = |l: Seq<Node>| Seq::new(l.len(), |i: int| entry_shown(l[i]));
    let none = Seq::<char>::empty();
    assert(h(hooks + more) =~= h(hooks) + h(more));
    law_concat(h(hooks), h(more), none);
    let no_hooks = Seq::<(Seq<char>, Node)>::empty();
    assert(h(no_hooks) =~= seq![]);
    let one = seq![(hook, Node::List(list))];
    assert(h(one) =~= seq![hook_shown((hook, Node::List(list)))]);
    law_concat(h(hooks), h(more), hook_shown((hook, Node::List(list))));
    let other = seq![(hook, n)];
    assert(h(other) =~= seq![hook_shown((hook, n))]);
    law_concat(h(hooks), h(more), hook_shown((hook, n)));
    assert(e(list + rest) =~= e(list) + e(rest));
    law_concat(e(list), e(rest), none);
    let no_entries = Seq::<Node>::empty();
    assert(e(no_entries) =~= seq![]);
    let entries = seq![n];
    assert(e(entries) =~= seq![entry_shown(n)]);
    law_concat(e(list), e(rest), entry_shown(n));
    if let Some(c) = hook_cmd(n) {
        match c.glob {
            Some(g) => {
                reveal_strlit(")");
                reveal_strlit("\n");
                reveal_strlit(")\n");
                assert(")"@ + "\n"@ =~= ")\n"@);
                assert(entry_shown(n) =~= "  "@ + c.run + "  (glob: "@ + g + (")"@ + "\n"@));
            },
            None => {
                assert(entry_shown(n) =~= "  "@ + c.run + "\n"@);
            },
        }
    }
}

// ---------------------------------------------------------------------------
// Files that commands name.
// ---------------------------------------------------------------------------

/// Whether a word of a command may refer to a file: it holds a `/`, and is the path with
/// any number of `./` in front; the path is neither the configuration nor in the directory
/// of hook scripts.
pub open spec fn may_refer(word: Seq<char>, path: Seq<char>) -> bool {
    &&& word.contains('/')
    &&& exists|n: nat| word == #[trigger] (times("./"@, n) + path)
    &&& !begins(path, "./"@)
    &&& !begins(path, ".githooks/"@)
    &&& path != ".githooks.toml"@
}

/// Whether the `l`-th word of the `j`-th entry of the `i`-th hook may refer to a file.
pub open spec fn refers(
    hooks: Entries,
    i: int,
    j: int,
    l: int,
    path: Seq<char>,
) -> bool {
    &&& 0 <= i < hooks.len()
    &&& hooks[i].1 matches Node::List(list) && 0 <= j < list.len() && (hook_cmd(list[j])
        matches Some(c) && 0 <= l < words_of(c.run).len() && may_refer(words_of(c.run)[l], path))
}

/// The file that a word may refer to.
proof fn lemma_word_ref(word: Seq<char>, path: Seq<char>)
    ensures
        word_ref(word) == Some(path) <==> may_refer(word, path),
{
    reveal_strlit("./");
    reveal_strlit("/");
    reveal_strlit(".githooks");
    reveal_strlit(".githooks/");
    reveal_strlit(".githooks.toml");
    assert(crate::config::HOOKS_DIR@ + "/"@ =~= ".githooks/"@);
    assert(crate::config::CONFIG_FILE@ == ".githooks.toml"@);
    let n = law_stripped(word, "./"@);
    if begins(word, "./"@) {
        assert(word.take(2)[1] == '/');
        assert(word[1] == '/');
        assert(word.contains('/'));
    }
    if word_ref(word) == Some(path) {
        assert(word == times("./"@, n) + path);
    }
    if may_refer(word, path) {
        let m = choose|m: nat| word == #[trigger] (times("./"@, m) + path);
        law_stripped_of("./"@, m, path);
    }
}

/// What lists hold one after another, one of them holds.
pub proof fn lemma_concat_contains<A>(list: Seq<Seq<A>>, x: A)
    ensures
        concat(list).contains(x) <==> exists|i: int|
            0 <= i < list.len() && (#[trigger] list[i]).contains(x),
    decreases list.len(),
{
    if list.len() > 0 {
        let fewer = list.drop_last();
        let last = list.last();
        let n = list.len() - 1;
        lemma_concat_contains(fewer, x);
        let all = concat(fewer) + last;
        assert(concat(list) == all);
        if all.contains(x) {
            let j = choose|j: int| 0 <= j < all.len() && all[j] == x;
            if j < concat(fewer).len() {
                assert(concat(fewer)[j] == x);
                let i = choose|i: int| 0 <= i < fewer.len() && (#[trigger] fewer[i]).contains(x);
                assert(list[i].contains(x));
            } else {
                assert(last[j - concat(fewer).len()] == x);
                assert(list[n].contains(x));
            }
        }
        if exists|i: int| 0 <= i < list.len() && (#[trigger] list[i]).contains(x) {
            let i = choose|i: int| 0 <= i < list.len() && (#[trigger] list[i]).contains(x);
            if i < n {
                assert(fewer[i].contains(x));
                let j = choose|j: int| 0 <= j < concat(fewer).len() && concat(fewer)[j] == x;
                assert(all[j] == x);
            } else {
                let j = choose|j: int| 0 <= j < last.len() && last[j] == x;
                assert(all[concat(fewer).len() + j] == x);
            }
        }
    }
}

/// The files that an entry may refer to are those of its words.
proof fn lemma_entry_refs(n: Node, path: Seq<char>)
    ensures
        entry_refs(n).contains(path) <==> (hook_cmd(n) matches Some(c) && exists|l: int|
            0 <= l < words_of(c.run).len() && may_refer(#[trigger] words_of(c.run)[l], path)),
{
    if let Some(c) = hook_cmd(n) {
        let ws = words_of(c.run);
        let found = Seq::new(ws.len(), |i: int| crate::config::at_most_one(word_ref(ws[i])));
        lemma_concat_contains(found, path);
        if entry_refs(n).contains(path) {
            let l = choose|l: int| 0 <= l < found.len() && (#[trigger] found[l]).contains(path);
            lemma_word_ref(ws[l], path);
            assert(may_refer(ws[l], path));
        }
        if exists|l: int| 0 <= l < ws.len() && may_refer(#[trigger] ws[l], path) {
            let l = choose|l: int| 0 <= l < ws.len() && may_refer(#[trigger] ws[l], path);
            lemma_word_ref(ws[l], path);
            assert(found[l] == seq![path]);
            assert(found[l][0] == path);
            assert(found[l].contains(path));
        }
    }
}

/// The files that the commands of a configuration may refer to are those that any word of
/// any command of any hook may refer to.
pub proof fn law_every_command_is_looked_at(doc: Entries, hooks: Entries, path: Seq<char>)
    requires
        entry(doc, "hooks"@) == Some(Node::Table(hooks)),
    ensures
        document_refs(doc).contains(path) <==> exists|i: int, j: int, l: int|
            refers(hooks, i, j, l, path),
{
    let found = Seq::new(hooks.len(), |i: int| hook_refs(hooks[i]));
    lemma_concat_contains(found, path);
    if document_refs(doc).contains(path) {
        let i = choose|i: int| 0 <= i < found.len() && (#[trigger] found[i]).contains(path);
        let list = hooks[i].1->List_0;
        let part = Seq::new(list.len(), |j: int| entry_refs(list[j]));
        assert(found[i] == concat(part));
        lemma_concat_contains(part, path);
        let j = choose|j: int| 0 <= j < part.len() && (#[trigger] part[j]).contains(path);
        lemma_entry_refs(list[j], path);
        let c = hook_cmd(list[j])->Some_0;
        let l = choose|l: int|
            0 <= l < words_of(c.run).len() && may_refer(#[trigger] words_of(c.run)[l], path);
        assert(refers(hooks, i, j, l, path));
    }
    if exists|i: int, j: int, l: int| refers(hooks, i, j, l, path) {
        let (i, j, l) = choose|i: int, j: int, l: int| refers(hooks, i, j, l, path);
        let list = hooks[i].1->List_0;
        let part = Seq::new(list.len(), |j: int| entry_refs(list[j]));
        let c = hook_cmd(list[j])->Some_0;
        assert(may_refer(words_of(c.run)[l], path));
        lemma_entry_refs(list[j], path);
        assert(part[j].contains(path));
        lemma_concat_contains(part, path);
        assert(found[i] == concat(part));
        assert(found[i].contains(path));
    }
}

/// A document without a table of hooks refers to nothing.
pub proof fn law_no_hooks_refer_to_nothing(doc: Entries)
    requires
        !(entry(doc, "hooks"@) matches Some(Node::Table(_))),
    ensures
        document_refs(doc) == Seq::<Seq<char>>::empty(),
{
}

/// A file that is not there, or does not parse, is read as an empty one.
pub proof fn law_read_as_empty(text: Option<Seq<char>>)
    ensures
        text is None ==> entries_of(text).len() == 0,
        text matches Some(t) ==> (match toml_parsed(t) {
            Ok(doc) => entries_of(text) == doc,
            Err(_) => entries_of(text).len() == 0,
        }),
{
}

/// An entry that is put in is there, and no other is changed; the keys stay in order.
pub proof fn law_entry_is_put(entries: Entries, key: Seq<char>, v: Node, other: Seq<char>)
    requires
        keys_ordered(entries),
    ensures
        entry(with_entry(entries, key, v), key) == Some(v),
        other != key ==> entry(with_entry(entries, key, v), other) == entry(entries, other),
        keys_ordered(with_entry(entries, key, v)),
{
    lemma_with_entry(entries, key, v);
}

} // verus!
