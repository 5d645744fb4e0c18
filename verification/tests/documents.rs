//! The files that are read and written, and what is decided from them.
use hookguard::config::{
    add_command, candidates, hook_entries, hook_names, parse_hook_cmd, prepare, render_config,
    render_document, HookCmd,
};
use hookguard::consent::{
    decide, env_verdict, parse_manifest, verdict_text, Decision,
};
use hookguard::content::canonical;
use hookguard::document::{
    get, get_list, get_table, get_text, position, put_entry, read_document, read_or_empty,
    take_entry, write_document, Clock, Day, Document, Item, Moment, Zone,
};
use hookguard::git::parse_staged;
use hookguard::policy::{default_decline, trust_key, trusted_keys, untrust_key};
use hookguard::signers::{fingerprint_field, parse_principals, signing_key_field};

fn owned(list: &[&str]) -> Vec<String> {
    list.iter().map(|s| s.to_string()).collect()
}

fn parse(text: &str) -> Document {
    match read_document(text) {
        Ok(doc) => doc,
        Err(e) => panic!("{e}"),
    }
}

fn print(doc: Document) -> String {
    write_document(doc).expect("text")
}

#[test]
fn documents_are_read() {
    let doc = parse("b = 1\na = \"x\"\nc = [\"y\", 2]\n[t]\nk = \"z\"\n");
    let keys: Vec<&str> = doc.iter().map(|(k, _)| k.as_str()).collect();
    assert_eq!(keys, ["a", "b", "c", "t"]);
    assert_eq!(get_text(&doc, "a").map(String::as_str), Some("x"));
    assert!(get_text(&doc, "b").is_none() && get_text(&doc, "z").is_none());
    assert_eq!(get_list(&doc, "c").map(Vec::len), Some(2));
    let t = get_table(&doc, "t").expect("table");
    assert_eq!(get_text(t, "k").map(String::as_str), Some("z"));
    assert_eq!((position(&doc, "a"), position(&doc, "t"), position(&doc, "zz")), (0, 3, 4));
    assert!(matches!(get(&doc, "b"), Some(Item::Int(_))));
}

#[test]
fn documents_that_do_not_parse() {
    let e = read_document("a = \n").err().expect("error");
    assert!(e.starts_with("TOML parse error at line 1, column 5"), "{e}");
    assert!(read_document("a = 1\na = 2\n").is_err());
    assert!(read_or_empty(&Some("a = ".to_string())).is_empty());
    assert!(read_or_empty(&None).is_empty());
    assert_eq!(read_or_empty(&Some("a = 1".to_string())).len(), 1);
}

#[test]
fn documents_are_printed_in_order_of_their_keys() {
    let text = "z = 1\na = [1.5, true, 1979-05-27T07:32:00Z, { y = \"q\", x = [] }]\n\n[t]\nk = \"v\"\n";
    let printed = print(parse(text));
    assert_eq!(
        printed,
        "a = [1.5, true, 1979-05-27T07:32:00Z, { x = [], y = \"q\" }]\nz = 1\n\n[t]\nk = \"v\"\n"
    );
    // What was printed is read back, and printed the same.
    assert_eq!(print(parse(&printed)), printed);
    assert_eq!(print(Vec::new()), "");
}

fn show(item: &Item) -> String {
    match item {
        Item::Text(s) => format!("{s:?}"),
        Item::List(l) => format!("[{}]", l.iter().map(show).collect::<Vec<_>>().join(",")),
        Item::Table(t) => show_table(t),
        Item::Int(i) => format!("{i}"),
        Item::Bool(b) => format!("{b}"),
        Item::Date(m) => format!("{m:?}"),
        Item::Other(v) => format!("{v}"),
    }
}

fn show_table(t: &[(String, Item)]) -> String {
    let inside: Vec<String> = t.iter().map(|(k, v)| format!("{k:?}:{}", show(v))).collect();
    format!("{{{}}}", inside.join(","))
}

#[test]
fn documents_of_plain_strings_are_read_back() {
    let table = |list: &[(&str, &str)]| {
        Item::Table(list.iter().map(|(k, v)| (k.to_string(), Item::Text(v.to_string()))).collect())
    };
    let texts = |list: &[&str]| {
        Item::List(list.iter().map(|s| Item::Text(s.to_string())).collect::<Vec<Item>>())
    };
    let documents: Vec<Document> = vec![
        vec![("a".to_string(), texts(&[])), ("b".to_string(), Item::Text("é '#' = []".to_string()))],
        vec![("hooks".to_string(), Item::Table(vec![
            ("1-x".to_string(), texts(&["", " ", "it's {staged_files}"])),
            ("pre-commit".to_string(), Item::List(vec![
                Item::Text("true".to_string()),
                table(&[("glob", "*.rs"), ("run", "x")]),
                table(&[]),
            ])),
            ("pre-push".to_string(), Item::List(vec![
                table(&[("run", "x")]),
                table(&[]),
                table(&[("glob", "[a]"), ("run", "y")]),
            ])),
        ]))],
        vec![
            ("aot".to_string(), Item::List(vec![table(&[("k", "v")])])),
            ("empty".to_string(), table(&[])),
            ("only".to_string(), Item::Table(vec![
                ("aot".to_string(), Item::List(vec![table(&[("k", "v")])])),
            ])),
            ("true".to_string(), Item::Text("false".to_string())),
            ("z".to_string(), table(&[("nan", "inf")])),
        ],
    ];
    for doc in documents {
        let want = show_table(&doc);
        let text = print(doc);
        assert_eq!(show_table(&parse(&text)), want, "{text}");
    }
}

#[test]
fn entries_are_taken_and_put() {
    let mut doc = parse("b = \"1\"\nd = \"2\"\n");
    put_entry(&mut doc, "c", Item::Text("x".to_string()));
    put_entry(&mut doc, "a", Item::List(Vec::new()));
    put_entry(&mut doc, "e", Item::Table(Vec::new()));
    assert!(matches!(take_entry(&mut doc, "b"), Some(Item::Text(_))));
    assert!(take_entry(&mut doc, "b").is_none());
    assert_eq!(print(doc), "a = []\nc = \"x\"\nd = \"2\"\n\n[e]\n");
}

#[test]
fn hook_commands() {
    let doc = parse(
        "[hooks]\nx = [\"a\", { run = \"b\", glob = \"*.rs\" }, { run = \"c\", glob = 1 }, \
         { glob = \"*\" }, { run = 1 }, 3, [\"d\"]]\ny = \"no list\"\n",
    );
    let list = hook_entries(&doc, "x").expect("list");
    let got: Vec<Option<(String, Option<String>)>> =
        list.iter().map(|i| parse_hook_cmd(i).map(|c| (c.run, c.glob))).collect();
    assert_eq!(
        got,
        vec![
            Some(("a".to_string(), None)),
            Some(("b".to_string(), Some("*.rs".to_string()))),
            Some(("c".to_string(), None)),
            None,
            None,
            None,
            None,
        ]
    );
    assert!(hook_entries(&doc, "y").is_none() && hook_entries(&doc, "z").is_none());
    assert!(hook_entries(&parse("hooks = 1\n"), "x").is_none());
    assert_eq!(hook_names().len(), 14);
}

#[test]
fn configurations_are_shown() {
    assert_eq!(render_config("  [hooks\n\n"), "[hooks\n");
    assert_eq!(render_config("a = 1\n"), "a = 1\n");
    assert_eq!(render_config("hooks = 1\n"), "hooks = 1\n");
    assert_eq!(render_config("[hooks]\n"), "");
    assert_eq!(
        render_config("[hooks]\npre-push = [\"b\"]\npre-commit = [{ run = \"a\", glob = \"*\" }, 1]\nz = 2\n"),
        "[pre-commit]\n  a  (glob: *)\n  <unparseable entry>\n[pre-push]\n  b\n"
    );
    assert_eq!(render_document(&Err("bad".to_string()), " raw "), "raw\n");
}

#[test]
fn commands_get_the_staged_files() {
    let staged = owned(&["main.rs", "src/lib.rs", "it's.md"]);
    let cmd = |run: &str, glob: Option<&str>| HookCmd {
        run: run.to_string(),
        glob: glob.map(str::to_string),
    };
    assert_eq!(prepare(&cmd("x", None), &staged).as_deref(), Some("x"));
    assert_eq!(prepare(&cmd("x", None), &owned(&[])).as_deref(), Some("x"));
    assert_eq!(
        prepare(&cmd("x {staged_files}; y {staged_files}", None), &owned(&["a", "b"])).as_deref(),
        Some("x 'a' 'b'; y 'a' 'b'")
    );
    assert_eq!(
        prepare(&cmd("x {staged_files}", Some("**.rs")), &staged).as_deref(),
        Some("x 'main.rs' 'src/lib.rs'")
    );
    assert_eq!(
        prepare(&cmd("x {staged_files}", Some("*.md")), &staged).as_deref(),
        Some("x 'it'\\''s.md'")
    );
    assert_eq!(prepare(&cmd("x", Some("*.py")), &staged), None);
    assert_eq!(prepare(&cmd("x {staged_files}", None), &owned(&[])).as_deref(), Some("x "));
}

#[test]
fn references_to_files() {
    let doc = parse(
        "[hooks]\na = [\"./x.sh --flag ././y/z .githooks/in.sh ./.githooks/in2.sh\", \
         { run = \"sh w/v\" }, \"./.githooks.toml plain\", 4]\n",
    );
    assert_eq!(candidates(&doc), owned(&["x.sh", "y/z", "w/v"]));
    assert!(candidates(&parse("a = 1\n")).is_empty());
    let doc = parse("[hooks]\na = ['/bin/sh ../x C:/y a/../b']\n");
    assert_eq!(candidates(&doc), owned(&["/bin/sh", "../x", "C:/y", "a/../b"]));
}

#[test]
fn commands_are_added() {
    let add = |text: &str, hook: &str| add_command(parse(text), hook, "new").map(print);
    assert_eq!(add("", "x"), Ok("[hooks]\nx = [\"new\"]\n".to_string()));
    assert_eq!(add("[hooks]\ny = [1]\n", "x"), Ok("[hooks]\nx = [\"new\"]\ny = [1]\n".to_string()));
    assert_eq!(
        add("[hooks]\nx = [{ run = \"a\" }]\n", "x"),
        Ok("[hooks]\nx = [{ run = \"a\" }, \"new\"]\n".to_string())
    );
    assert_eq!(add("hooks = []\n", "x"), Err("[hooks] must be a table".to_string()));
    assert_eq!(add("[hooks]\nx = \"a\"\n", "x"), Err("hook entry must be an array".to_string()));
}

#[test]
fn policies() {
    let doc = parse("trusted_keys = [\"a\", 1, \"b\"]\ndefault = \"decline\"\n");
    assert_eq!(trusted_keys(&doc), owned(&["a", "b"]));
    assert!(default_decline(&doc));
    assert!(!default_decline(&parse("default = \"prompt\"\n")));
    assert!(!default_decline(&parse("default = [\"decline\"]\n")));
    assert!(trusted_keys(&parse("trusted_keys = \"a\"\n")).is_empty());
    assert_eq!(
        trust_key(doc, "c").map(print),
        Ok("default = \"decline\"\ntrusted_keys = [\"a\", 1, \"b\", \"c\"]\n".to_string())
    );
    assert_eq!(trust_key(Vec::new(), "c").map(print), Ok("trusted_keys = [\"c\"]\n".to_string()));
    assert_eq!(
        trust_key(parse("trusted_keys = [\"c\"]\n"), "c").map(print),
        Ok("trusted_keys = [\"c\"]\n".to_string())
    );
    assert_eq!(
        trust_key(parse("trusted_keys = 1\n"), "c").err(),
        Some("trusted_keys must be an array".to_string())
    );
    let doc = parse("trusted_keys = [\"a\", \"b\", \"a\", 1]\n");
    assert_eq!(print(untrust_key(doc, "a")), "trusted_keys = [\"b\", 1]\n");
    assert_eq!(print(untrust_key(parse("x = 1\n"), "a")), "x = 1\n");
}

#[test]
fn lists_of_signers() {
    let list = "# me@x key\n\n  a@x,b@x,, ssh-ed25519 AAAA one \r\nc@x\n\tb@x  ssh-rsa BBBB\n";
    assert_eq!(parse_principals(list), owned(&["a@x", "b@x", "c@x", "b@x"]));
    let good = "Good \"git-hooks\" signature for a@x with ED25519 key SHA256:abc\n";
    assert_eq!(signing_key_field(good), "SHA256:abc");
    assert_eq!(signing_key_field("Could not verify signature.\n"), "");
    assert_eq!(signing_key_field(""), "");
    assert_eq!(fingerprint_field("256 SHA256:abc me (ED25519)\n"), "SHA256:abc");
    assert_eq!(fingerprint_field("256\n"), "");
}

#[test]
fn decisions() {
    let some = |s: &str| Some(s.to_string());
    assert_eq!(verdict_text(true, "h"), "accept:h");
    assert_eq!(verdict_text(false, "h"), "decline:h");
    assert_eq!(decide(&some("accept:h"), &some("h")), Decision::Accepted);
    assert_eq!(decide(&some("decline:h"), &some("h")), Decision::Declined);
    assert_eq!(decide(&some("accept:g"), &some("h")), Decision::Changed);
    assert_eq!(decide(&some("accept:h"), &None), Decision::Changed);
    assert_eq!(decide(&None, &some("h")), Decision::Open);
    assert_eq!(env_verdict(&some("accept"), "h"), Some(true));
    assert_eq!(env_verdict(&some("decline"), "h"), Some(false));
    assert_eq!(env_verdict(&some("accept:h"), "h"), Some(true));
    assert_eq!(env_verdict(&some("accept:g"), "h"), None);
    assert_eq!(env_verdict(&some("decline:h"), "h"), None);
    assert_eq!(env_verdict(&some(""), "h"), None);
    assert_eq!(env_verdict(&None, "h"), None);
}

#[test]
fn manifests() {
    let pair = |a: &str, b: &str| (a.to_string(), b.to_string());
    assert_eq!(
        parse_manifest(".githooks.toml\tabc\nno tab\n.githooks/a b\td\te\n"),
        vec![pair(".githooks.toml", "abc"), pair(".githooks/a b", "d\te")]
    );
    assert!(parse_manifest("").is_empty());
}

#[test]
fn canonical_texts() {
    let pair = |a: &str, b: &str| (a.to_string(), b.to_string());
    assert_eq!(
        canonical(&Some("1".to_string()), &vec![pair(".githooks/x", "2"), pair(".githooks/y", "")]),
        ".githooks.toml:1\n.githooks/x:2\n.githooks/y:\n"
    );
    assert_eq!(canonical(&None, &Vec::new()), "");
}

#[test]
fn staged_names() {
    let listed = "a.rs\n\n\"\\303\\251.rs\"\n\"a\\tb\\\"c\\\\d\\n\"\n\"é\\q\"\n\"\\377\"\n\"\n";
    assert_eq!(
        parse_staged(listed),
        owned(&["a.rs", "é.rs", "a\tb\"c\\d\n", "é\\q", "\u{fffd}", "\""])
    );
}

fn alike(a: &Item, b: &Item) -> bool {
    match (a, b) {
        (Item::Text(x), Item::Text(y)) => x == y,
        (Item::Int(x), Item::Int(y)) => x == y,
        (Item::Bool(x), Item::Bool(y)) => x == y,
        (Item::Date(x), Item::Date(y)) => x == y,
        (Item::List(x), Item::List(y)) => {
            x.len() == y.len() && x.iter().zip(y).all(|(a, b)| alike(a, b))
        }
        (Item::Table(x), Item::Table(y)) => {
            x.len() == y.len() && x.iter().zip(y).all(|(a, b)| a.0 == b.0 && alike(&a.1, &b.1))
        }
        _ => false,
    }
}

fn copy(a: &Item) -> Item {
    match a {
        Item::Text(s) => Item::Text(s.clone()),
        Item::Int(i) => Item::Int(*i),
        Item::Bool(b) => Item::Bool(*b),
        Item::Date(m) => Item::Date(*m),
        Item::List(l) => Item::List(l.iter().map(copy).collect()),
        Item::Table(t) => Item::Table(t.iter().map(|(k, v)| (k.clone(), copy(v))).collect()),
        Item::Other(_) => panic!("no plain value"),
    }
}

#[test]
fn dates_are_read_back() {
    let day = Day { year: 1979, month: 5, day: 27 };
    let clock = Clock { hour: 7, minute: 32, second: Some(5), nanosecond: None };
    let date = |text: &str| match parse(&format!("a = {text}\n")).remove(0).1 {
        Item::Date(m) => m,
        other => panic!("{}", show(&other)),
    };
    let moment = |date, time, offset| Moment { date, time, offset };
    let part = Clock { nanosecond: Some(20_000_000), ..clock };
    let short = Clock { second: None, ..clock };
    let leap = Day { year: 2000, month: 2, day: 29 };
    for (text, want) in [
        ("1979-05-27T07:32:05Z", moment(Some(day), Some(clock), Some(Zone::Zulu))),
        ("1979-05-27T07:32:05-07:30", moment(Some(day), Some(clock), Some(Zone::Minutes(-450)))),
        ("1979-05-27T07:32:05.02", moment(Some(day), Some(part), None)),
        ("1979-05-27", moment(Some(day), None, None)),
        ("07:32", moment(None, Some(short), None)),
        ("2000-02-29", moment(Some(leap), None, None)),
    ] {
        assert_eq!(date(text), want);
        assert_eq!(print(vec![("a".to_string(), Item::Date(want))]), format!("a = {text}\n"));
        comes_back(vec![("a".to_string(), Item::List(vec![Item::Date(want), Item::Int(1)]))]);
    }
    // A date that is not in the calendar is not printed.
    let wrong = moment(Some(Day { month: 13, ..day }), None, None);
    assert_eq!(write_document(vec![("a".to_string(), Item::Date(wrong))]), None);
}

fn comes_back(doc: Document) {
    let before = Item::Table(doc.iter().map(|(k, v)| (k.clone(), copy(v))).collect());
    let text = print(doc);
    assert!(alike(&before, &Item::Table(parse(&text))), "{text}");
}

#[test]
fn every_string_comes_back() {
    let odd = ['\'', '"', '\\', '\n', '\r', '\t', ' ', 'a', 'é', '\u{1}', '\u{7f}', '\u{85}', '#'];
    let mut all = vec![String::new()];
    let mut last = all.clone();
    for _ in 0..3 {
        let mut next = Vec::new();
        for s in &last {
            for c in odd {
                next.push(format!("{s}{c}"));
            }
        }
        all.extend(next.iter().cloned());
        last = next;
    }
    for q in ["'", "\""] {
        for n in 1..9 {
            all.push(q.repeat(n));
            all.push(format!("\n{}", q.repeat(n)));
            all.push(format!("'\"{}\\", q.repeat(n)));
            all.push(format!("{}\n\\'''", q.repeat(n)));
        }
    }
    // As elements of an array.
    comes_back(vec![(
        "list".to_string(),
        Item::List(all.iter().map(|s| Item::Text(s.clone())).collect()),
    )]);
    // As keys and values of a table, of its own and in an array.
    let mut table: Document = Vec::new();
    for s in &all {
        put_entry(&mut table, s, Item::Text(s.clone()));
    }
    let table = Item::Table(table);
    let mixed = Item::List(vec![Item::Text("x".to_string()), copy(&table)]);
    let tables = Item::List(vec![copy(&table), Item::Table(Vec::new()), copy(&table)]);
    let mut doc: Document = Vec::new();
    put_entry(&mut doc, "mixed", mixed);
    put_entry(&mut doc, "table", table);
    put_entry(&mut doc, "tables", tables);
    comes_back(doc);
}

#[test]
fn every_shape_comes_back() {
    // Values that are nested in every way, up to the depth at which they still are
    // plain.
    let mut layer: Vec<Item> = vec![
        Item::Text("it's \"x\"".to_string()),
        Item::Int(i64::MIN),
        Item::Int(i64::MAX),
        Item::Bool(true),
        Item::Bool(false),
        Item::List(Vec::new()),
        Item::Table(Vec::new()),
    ];
    for depth in 0..16 {
        let mut doc: Document = Vec::new();
        for (i, v) in layer.iter().enumerate() {
            put_entry(&mut doc, &format!("k.{i}"), copy(v));
            put_entry(&mut doc, &format!("k{i}"), Item::Int(depth));
        }
        comes_back(doc);
        let last = &layer[layer.len() - 1];
        let prior = &layer[layer.len() - 2];
        let more = vec![
            Item::List(vec![copy(prior), copy(last)]),
            Item::List(vec![
                Item::Table(vec![("a".to_string(), copy(last))]),
                Item::Table(vec![("b c".to_string(), copy(prior))]),
            ]),
            Item::Table(vec![("".to_string(), copy(prior)), ("é".to_string(), Item::Bool(true))]),
            Item::Table(vec![("x".to_string(), copy(last))]),
        ];
        if depth < 4 {
            layer.extend(more);
        } else {
            let one = if depth % 2 == 0 {
                Item::List(vec![copy(last)])
            } else {
                Item::Table(vec![("t".to_string(), copy(last))])
            };
            layer = vec![Item::Bool(true), one];
        }
    }
}
