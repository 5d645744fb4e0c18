//! Quoting of paths for `sh`.
use crate::text::{before, begins, cat3, join, joined, lemma_before, replace, replaced, texts};
use vstd::prelude::*;

verus! {

/// `s` between single quotes, with each single quote inside closed, escaped and
/// opened again.
pub open spec fn quoted(s: Seq<char>) -> Seq<char> {
    "'"@ + replaced(s, "'"@, "'\\''"@) + "'"@
}

/// Each of `files` quoted.
pub open spec fn each_quoted(files: Seq<Seq<char>>) -> Seq<Seq<char>> {
    Seq::new(files.len(), |i: int| quoted(files[i]))
}

/// All of `files` quoted, with a blank between neighbours.
pub open spec fn quoted_list(files: Seq<Seq<char>>) -> Seq<char> {
    joined(each_quoted(files), " "@)
}

/// Single-quotes a path for `sh`, escaping embedded single quotes.
pub fn shell_quote(s: &str) -> (r: String)
    ensures
        r@ == quoted(s@),
{
    proof {
        reveal_strlit("'");
    }
    let inner = replace(s, "'", "'\\''");
    cat3("'", inner.as_str(), "'")
}

/// Single-quotes every path of a list for `sh`.
pub fn shell_quote_list(files: &Vec<String>) -> (r: String)
    ensures
        r@ == quoted_list(texts(files@)),
{
    let mut out: Vec<String> = Vec::new();
    let mut i: usize = 0;
    while i < files.len()
        invariant
            i <= files@.len(),
            out@.len() == i,
            forall|j: int| 0 <= j < i ==> (#[trigger] out@[j])@ == quoted(files@[j]@),
        decreases files@.len() - i,
    {
        out.push(shell_quote(files[i].as_str()));
        i = i + 1;
    }
    assert(texts(out@) =~= each_quoted(texts(files@)));
    join(&out, " ")
}

// ---------------------------------------------------------------------------
// What `sh` reads.
// ---------------------------------------------------------------------------

/// The words that `sh` reads from `s`, as far as blanks, single quotes and
/// backslashes go: `done` are the words read so far and `word` the one begun.
/// Nothing is said of an unclosed quote, a backslash at the end or any other
/// unquoted character.
pub open spec fn sh_read(s: Seq<char>, done: Seq<Seq<char>>, word: Option<Seq<char>>) -> Option<
    Seq<Seq<char>>,
>
    decreases s.len(),
    via sh_read_ends
{
    let begun = match word {
        Some(w) => w,
        None => seq![],
    };
    let read = match word {
        Some(w) => done.push(w),
        None => done,
    };
    if s.len() == 0 {
        Some(read)
    } else if s[0] == ' ' {
        sh_read(s.skip(1), read, None)
    } else if s[0] == '\'' {
        let k = before(s.skip(1), '\'');
        if k < s.skip(1).len() {
            sh_read(s.skip(1).skip(k + 1), done, Some(begun + s.skip(1).take(k)))
        } else {
            None
        }
    } else if s[0] == '\\' && s.len() > 1 {
        sh_read(s.skip(2), done, Some(begun.push(s[1])))
    } else {
        None
    }
}

/// Each step of [`sh_read`] leaves a shorter text.
#[via_fn]
proof fn sh_read_ends(s: Seq<char>, done: Seq<Seq<char>>, word: Option<Seq<char>>) {
    if s.len() > 0 {
        lemma_before(s.skip(1), '\'');
    }
}

/// The words that `sh` reads from `s`.
pub open spec fn sh_words(s: Seq<char>) -> Option<Seq<Seq<char>>> {
    sh_read(s, seq![], None)
}

/// Counting up to a character that comes right after a text without it.
proof fn lemma_before_at(a: Seq<char>, c: char, rest: Seq<char>)
    requires
        forall|i: int| 0 <= i < a.len() ==> a[i] != c,
    ensures
        before(a + (seq![c] + rest), c) == a.len(),
    decreases a.len(),
{
    let s = a + (seq![c] + rest);
    if a.len() > 0 {
        assert(s[0] == a[0]);
        assert(s.drop_first() =~= a.drop_first() + (seq![c] + rest));
        lemma_before_at(a.drop_first(), c, rest);
    } else {
        assert(s[0] == c);
    }
}

/// Replacing a character in a text that does not begin with it.
proof fn lemma_replace_past(a: Seq<char>, b: Seq<char>, to: Seq<char>)
    requires
        forall|i: int| 0 <= i < a.len() ==> a[i] != '\'',
    ensures
        replaced(a + b, seq!['\''], to) == a + replaced(b, seq!['\''], to),
    decreases a.len(),
{
    let q = seq!['\''];
    if a.len() > 0 {
        let s = a + b;
        assert(s.drop_first() =~= a.drop_first() + b);
        assert(s[0] == a[0]);
        if begins(s, q) {
            assert(s.take(1)[0] == '\'');
        }
        lemma_replace_past(a.drop_first(), b, to);
        assert(seq![s[0]] + (a.drop_first() + replaced(b, q, to)) =~= a + replaced(b, q, to));
    } else {
        assert(a + b =~= b);
        assert(a + replaced(b, q, to) =~= replaced(b, q, to));
    }
}

/// The text of the word begun.
spec fn begun(word: Option<Seq<char>>) -> Seq<char> {
    match word {
        Some(w) => w,
        None => seq![],
    }
}

/// `sh` reads what is between two quotes as it is.
proof fn lemma_read_span(
    a: Seq<char>,
    rest: Seq<char>,
    done: Seq<Seq<char>>,
    word: Option<Seq<char>>,
)
    requires
        forall|i: int| 0 <= i < a.len() ==> a[i] != '\'',
    ensures
        sh_read(seq!['\''] + (a + (seq!['\''] + rest)), done, word) == sh_read(
            rest,
            done,
            Some(begun(word) + a),
        ),
{
    let q = seq!['\''];
    let t = q + (a + (q + rest));
    assert(t.skip(1) =~= a + (q + rest));
    lemma_before_at(a, '\'', rest);
    assert(t.skip(1).take(a.len() as int) =~= a);
    assert(t.skip(1).skip(a.len() as int + 1) =~= rest);
}

/// `sh` reads an escaped quote as a quote.
proof fn lemma_read_escaped(rest: Seq<char>, done: Seq<Seq<char>>, w: Seq<char>)
    ensures
        sh_read(seq!['\\', '\''] + rest, done, Some(w)) == sh_read(
            rest,
            done,
            Some(w.push('\'')),
        ),
{
    let t = seq!['\\', '\''] + rest;
    assert(t.skip(2) =~= rest);
}

/// A quoted text, up to its first quote and from there on.
proof fn lemma_quoted_parts(s: Seq<char>, k: int)
    requires
        0 <= k <= s.len(),
        forall|i: int| 0 <= i < k ==> s[i] != '\'',
        k < s.len() ==> s[k] == '\'',
    ensures
        k == s.len() ==> quoted(s) == seq!['\''] + (s + seq!['\'']),
        k < s.len() ==> quoted(s) == seq!['\''] + (s.take(k) + (seq!['\''] + (seq!['\\', '\'']
            + quoted(s.skip(k + 1))))),
{
    reveal_strlit("'");
    reveal_strlit("'\\''");
    let q = seq!['\''];
    let esc = "'\\''"@;
    assert("'"@ =~= q);
    assert(esc =~= seq!['\'', '\\', '\'', '\'']);
    let a = s.take(k);
    if k >= s.len() {
        assert(s + Seq::<char>::empty() =~= s);
        lemma_replace_past(s, seq![], esc);
        assert(replaced(s, q, esc) =~= s);
        assert(quoted(s) =~= q + (s + q));
    } else {
        let b = s.skip(k + 1);
        assert(s =~= a + (q + b));
        lemma_replace_past(a, q + b, esc);
        assert((q + b).take(1) =~= q);
        assert((q + b).skip(1) =~= b);
        assert(replaced(s, q, esc) =~= a + (esc + replaced(b, q, esc)));
        assert(quoted(s) =~= q + (a + (q + (seq!['\\', '\''] + quoted(b)))));
    }
}

/// `sh` reads a quoted text back as it was, and goes on after it.
proof fn lemma_read_quoted(
    s: Seq<char>,
    rest: Seq<char>,
    done: Seq<Seq<char>>,
    word: Option<Seq<char>>,
)
    ensures
        sh_read(quoted(s) + rest, done, word) == sh_read(rest, done, Some(begun(word) + s)),
    decreases s.len(),
{
    let q = seq!['\''];
    let k = before(s, '\'');
    lemma_before(s, '\'');
    lemma_quoted_parts(s, k);
    if k >= s.len() {
        assert(quoted(s) + rest =~= q + (s + (q + rest)));
        lemma_read_span(s, rest, done, word);
    } else {
        let a = s.take(k);
        let b = s.skip(k + 1);
        let tail = quoted(b) + rest;
        assert(quoted(s) + rest =~= q + (a + (q + (seq!['\\', '\''] + tail))));
        lemma_read_span(a, seq!['\\', '\''] + tail, done, word);
        lemma_read_escaped(tail, done, begun(word) + a);
        lemma_read_quoted(b, rest, done, Some((begun(word) + a).push('\'')));
        assert((begun(word) + a).push('\'') + b =~= begun(word) + s);
    }
}

/// `sh` reads a quoted list back word by word, and goes on in the last.
proof fn lemma_read_list(files: Seq<Seq<char>>, rest: Seq<char>, done: Seq<Seq<char>>)
    requires
        files.len() > 0,
    ensures
        sh_read(quoted_list(files) + rest, done, None) == sh_read(
            rest,
            done + files.drop_last(),
            Some(files.last()),
        ),
    decreases files.len(),
{
    let qs = each_quoted(files);
    let none = Seq::<char>::empty();
    assert(none + files.last() =~= files.last());
    if files.len() == 1 {
        lemma_read_quoted(files[0], rest, done, None);
        assert(done + files.drop_last() =~= done);
    } else {
        reveal_strlit(" ");
        let fewer = files.drop_last();
        assert(qs.drop_last() =~= each_quoted(fewer));
        let tail = " "@ + (quoted(files.last()) + rest);
        assert(quoted_list(files) + rest =~= quoted_list(fewer) + tail);
        lemma_read_list(fewer, tail, done);
        assert(tail.skip(1) =~= quoted(files.last()) + rest);
        assert((done + fewer.drop_last()).push(fewer.last()) =~= done + fewer);
        lemma_read_quoted(files.last(), rest, done + fewer, None);
    }
}

/// Whatever characters a path holds, `sh` reads its quoted form as one word,
/// the path itself.
pub proof fn law_shell_reads_quoted(s: Seq<char>)
    ensures
        sh_words(quoted(s)) == Some(seq![s]),
{
    let none = Seq::<char>::empty();
    lemma_read_quoted(s, none, seq![], None);
    assert(quoted(s) + none =~= quoted(s));
    assert(none + s =~= s);
    assert(Seq::<Seq<char>>::empty().push(s) =~= seq![s]);
}

/// `sh` reads a quoted list as exactly the listed paths, one word each.
pub proof fn law_shell_reads_quoted_list(files: Seq<Seq<char>>)
    ensures
        sh_words(quoted_list(files)) == Some(files),
{
    let none = Seq::<char>::empty();
    if files.len() == 0 {
        assert(Seq::<Seq<char>>::empty() =~= files);
    } else {
        lemma_read_list(files, none, seq![]);
        assert(quoted_list(files) + none =~= quoted_list(files));
        assert((Seq::<Seq<char>>::empty() + files.drop_last()).push(files.last()) =~= files);
    }
}

} // verus!
