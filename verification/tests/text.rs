//! Text, order, paths, patterns and quoting, held against the standard library
//! where it has the same function.
use hookguard::glob::glob_match;
use hookguard::order::{collect_distinct, comes_before, sort, Order};
use hookguard::paths::{find_inside, is_absolute, join_path, rel, strip_root};
use hookguard::prompt::is_uncovered;
use hookguard::quote::{shell_quote, shell_quote_list};
use hookguard::text::{
    cat2, cat3, contains, join, lines, listed, replace, same, slice_text, split, split_once,
    starts_with, trim, trim_end, trim_start_matches, words,
};
use std::collections::BTreeSet;
use std::path::{Path, PathBuf};

const SAMPLES: [&str; 24] = [
    "",
    " ",
    "a",
    "  a b  ",
    "\t\r\n x \n\n",
    "a\nb\nc",
    "a\r\nb\r\n",
    "a\n\nb\n",
    "\n",
    "\r",
    "a\r",
    "a\r\r\n",
    "\u{a0}x\u{2003}y\u{3000}",
    "\u{85}z\u{1680}",
    "\u{200b}not space\u{200b}",
    "é ü\u{2028}ß",
    "a,b,,c",
    ",",
    "./././x",
    "...//x/./",
    "{staged_files} {staged_files}",
    "aaaa",
    "principal ssh-ed25519 AAAA",
    "\u{1f}x\u{1f}",
];

fn owned(list: &[&str]) -> Vec<String> {
    list.iter().map(|s| s.to_string()).collect()
}

#[test]
fn trims_like_the_standard_library() {
    for s in SAMPLES {
        assert_eq!(trim(s), s.trim(), "{s:?}");
        assert_eq!(trim_end(s), s.trim_end(), "{s:?}");
    }
}

#[test]
fn every_character_is_space_or_not_as_in_the_standard_library() {
    for c in (0..=0x3100u32).filter_map(char::from_u32) {
        let s = format!("{c}a{c}");
        assert_eq!(trim(&s), s.trim(), "{:x}", c as u32);
    }
}

#[test]
fn splits_like_the_standard_library() {
    for s in SAMPLES {
        assert_eq!(lines(s), s.lines().collect::<Vec<_>>(), "{s:?}");
        assert_eq!(words(s), s.split_whitespace().collect::<Vec<_>>(), "{s:?}");
        assert_eq!(split(s, ','), s.split(',').collect::<Vec<_>>(), "{s:?}");
        let once = s.split_once(' ').map(|(a, b)| (a.to_string(), b.to_string()));
        assert_eq!(split_once(s, ' '), once, "{s:?}");
    }
}

#[test]
fn finds_like_the_standard_library() {
    let needles = ["a", "aa", "./", "{staged_files}", "\n", "é", "x", "# git-hooks shim"];
    for s in SAMPLES {
        for p in needles {
            assert_eq!(contains(s, p), s.contains(p), "{s:?} {p:?}");
            assert_eq!(starts_with(s, p), s.starts_with(p), "{s:?} {p:?}");
            assert_eq!(trim_start_matches(s, p), s.trim_start_matches(p), "{s:?} {p:?}");
            assert_eq!(replace(s, p, "<é>"), s.replace(p, "<é>"), "{s:?} {p:?}");
        }
    }
}

#[test]
fn joins_like_the_standard_library() {
    for list in [vec![], vec!["a"], vec!["a", "", "é"]] {
        assert_eq!(join(&owned(&list), ", "), list.join(", "));
    }
    assert_eq!(cat2("a", "é"), "aé");
    assert_eq!(cat3("a", "", "c"), "ac");
    assert_eq!(slice_text(&vec!['a', 'é', 'c'], 1, 3), "éc");
    assert!(same("é", "é") && !same("e", "é") && !same("a", "ab"));
    assert!(listed(&owned(&["a", "b"]), "b") && !listed(&owned(&["a", "b"]), "c"));
}

const PATHS: [&str; 14] = [
    "",
    "/",
    "/a",
    "/a/",
    "/a/b",
    "/a/./b/",
    "/a//b//c",
    "a/b",
    "./a",
    "a/..",
    "/a/b/c.sh",
    "/ab/c",
    ".",
    "/a/b/.",
];

#[test]
fn joins_paths_like_the_standard_library() {
    for a in PATHS {
        for b in PATHS {
            let want = Path::new(a).join(b);
            assert_eq!(join_path(false, a, b), want.to_str().expect("text"), "{a:?} {b:?}");
        }
    }
}

#[test]
fn joins_paths_as_on_windows() {
    for (base, p, want) in [
        ("C:\\Users\\me", ".config/x", "C:\\Users\\me\\.config/x"),
        ("C:/repo", ".githooks.toml", "C:/repo\\.githooks.toml"),
        ("C:/repo/", "a", "C:/repo/a"),
        ("C:\\repo\\", "a", "C:\\repo\\a"),
        ("C:", "a", "C:a"),
        ("C:\\r", "\\x", "C:\\x"),
        ("r", "/x", "/x"),
        ("r", "D:x", "D:x"),
        ("r", "d:/x", "d:/x"),
        ("C:/r", "\\\\s\\h", "\\\\s\\h"),
        ("\\\\s\\h", "a", "\\\\s\\h\\a"),
        ("\\\\s\\h\\d", "\\x", "\\\\s\\h\\x"),
        ("//s/h/d", "/x", "//s/h/x"),
        ("\\\\.\\dev\\d", "\\x", "\\\\.\\dev\\x"),
        ("\\\\?\\C:\\r", "\\x", "\\\\?\\C:\\x"),
        ("\\\\?\\C:\\r", "a/../b", "\\\\?\\C:\\r\\b"),
        ("\\\\?\\UNC\\s\\h\\d", "/x", "\\\\?\\UNC\\s\\h\\x"),
        ("", "a", "a"),
    ] {
        assert_eq!(join_path(true, base, p), want, "{base:?} {p:?}");
    }
}

#[test]
fn tells_what_lies_inside() {
    let inside = |windows: bool, root: &str, p: &str| find_inside(windows, root, p);
    for (p, want) in [
        ("/r/x", "x"),
        ("/r/./a//b", "a/b"),
        ("/r/a/../b", "b"),
        ("/r/../r/x", "x"),
        ("/x/../r/y/.", "y"),
    ] {
        assert_eq!(inside(false, "/r", p).map(|n| n.join("/")), Some(want.to_string()), "{p:?}");
    }
    for p in ["/", "/r", "/rx", "/r/..", "/r/../x", "r/x", "/r/a/../../x", ""] {
        assert_eq!(inside(false, "/r", p), None, "{p:?}");
    }
    assert_eq!(inside(true, "C:/r", "C:\\r\\a/b").map(|n| n.join("/")), Some("a/b".to_string()));
    assert_eq!(inside(true, "C:/r", "D:\\r\\a"), None);
    for p in ["/r/x", "/r/a/../x", "/r/.githooksx", "/r/.githooks"] {
        assert!(is_uncovered(false, "/r", p), "{p:?}");
    }
    for p in ["/x", "/r/../x", "/r/.githooks.toml", "/r/.githooks/x", "/r/a/../.githooks/x/y"] {
        assert!(!is_uncovered(false, "/r", p), "{p:?}");
    }
}

#[test]
fn strips_roots_like_the_standard_library() {
    for a in PATHS {
        for b in PATHS {
            let want = Path::new(b).strip_prefix(a).ok().map(|p| p.to_str().expect("text"));
            assert_eq!(strip_root(a, b).as_deref(), want, "{a:?} {b:?}");
        }
    }
}

#[test]
fn names_files_in_the_repository() {
    assert_eq!(rel(false, "/repo", "/repo/.githooks/a.sh"), ".githooks/a.sh");
    assert_eq!(rel(false, "/repo/", "/repo/.githooks.toml"), ".githooks.toml");
    assert_eq!(rel(false, "/repo", "/elsewhere/x"), "/elsewhere/x");
    assert_eq!(rel(true, "C:/repo", "C:/repo\\.githooks\\a.sh"), ".githooks/a.sh");
    assert_eq!(rel(true, "C:\\repo", &join_path(true, "C:\\repo", "d/f")), "d/f");
    assert_eq!(rel(true, "C:/repo", "D:\\x"), "D:/x");
    assert_eq!(rel(true, "C:/repo", "C:/repo/.githooks\\a.sh"), ".githooks/a.sh");
    assert_eq!(rel(false, "/repo", &join_path(false, "/repo", "dir/file")), "dir/file");
}

#[test]
fn tells_absolute_paths() {
    for p in PATHS {
        assert_eq!(is_absolute(false, p), Path::new(p).is_absolute(), "{p:?}");
    }
    assert!(is_absolute(true, "C:/x") && is_absolute(true, "c:\\x"));
    assert!(is_absolute(true, "\\\\s\\h\\x") && is_absolute(true, "\\\\?\\C:\\x"));
    assert!(!is_absolute(true, "\\x") && !is_absolute(true, "/x"));
    assert!(!is_absolute(true, "C:x") && !is_absolute(true, "x") && !is_absolute(true, ".git/hooks"));
}

#[test]
fn sorts_like_the_standard_library() {
    let list = [
        "/r/b", "/r/a/z", "/r/a.sh", "/r/a", "/r/a b/c", "/r/a/b/c", "/r/A", "/r/é", "/r/a-b",
        "/r/a/é", "/r/z", "/r/a/b",
    ];
    let mut texts: Vec<String> = owned(&list);
    texts.sort();
    assert_eq!(sort(Order::Text, owned(&list)), texts);
    let mut paths: Vec<PathBuf> = list.iter().map(PathBuf::from).collect();
    paths.sort();
    let paths: Vec<String> = paths.iter().map(|p| p.to_str().expect("text").to_string()).collect();
    assert_eq!(sort(Order::Path, owned(&list)), paths);
    // The order in which they were found makes no difference.
    let mut backwards = owned(&list);
    backwards.reverse();
    assert_eq!(sort(Order::Path, backwards), paths);
    assert!(comes_before(Order::Path, "/r/a/z", "/r/a.sh"));
    assert!(comes_before(Order::Windows, "C:/r\\a\\z", "C:/r\\a.sh"));
    assert!(!comes_before(Order::Path, "C:/r\\a\\z", "C:/r\\a.sh"));
    assert!(!comes_before(Order::Text, "/r/a/z", "/r/a.sh"));
}

#[test]
fn collects_each_text_once() {
    let list = ["b", "a", "b", "", "c/d", "a"];
    let want: Vec<String> =
        list.iter().map(|s| s.to_string()).collect::<BTreeSet<_>>().into_iter().collect();
    assert_eq!(collect_distinct(&owned(&list)), want);
}

#[test]
fn globs() {
    let yes = [
        ("*.rs", "main.rs"),
        ("*.rs", ".rs"),
        ("**/*.rs", "src/main.rs"),
        ("**/*.rs", "src/a/main.rs"),
        ("src/**", "src/a/b"),
        ("src/**", "src/"),
        ("a?c", "abc"),
        ("**", ""),
        ("", ""),
        ("a*b*c", "a-b-b-c"),
        ("***", "a/b"),
        ("é*", "éa"),
        ("src/*/x.rs", "src/a/x.rs"),
    ];
    for (p, t) in yes {
        assert!(glob_match(p, t), "{p} should match {t}");
    }
    let no = [
        ("*.rs", "src/main.rs"),
        ("*.rs", "main.rsx"),
        ("**/*.rs", "main.rs"),
        ("a?c", "a/c"),
        ("a?c", "ac"),
        ("", "a"),
        ("src/*/x.rs", "src/a/b/x.rs"),
        ("a", "A"),
        ("[a]", "a"),
    ];
    for (p, t) in no {
        assert!(!glob_match(p, t), "{p} should not match {t}");
    }
    // A question mark stands for one byte.
    assert!(!glob_match("?", "é") && glob_match("??", "é"));
}

#[test]
fn quotes_for_the_shell() {
    assert_eq!(shell_quote("a b"), "'a b'");
    assert_eq!(shell_quote(""), "''");
    assert_eq!(shell_quote("it's"), "'it'\\''s'");
    assert_eq!(shell_quote("''"), "''\\'''\\'''");
    assert_eq!(shell_quote_list(&owned(&["a", "b c", "d'e"])), "'a' 'b c' 'd'\\''e'");
    assert_eq!(shell_quote_list(&owned(&[])), "");
}
