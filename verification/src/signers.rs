//! The list of those who may sign: lines of principals and a public key.
use crate::text::{
    chars, concat, lines, lines_of, same, split, split_at_char, texts, trim, trimmed, words,
    words_of,
};
use vstd::prelude::*;

verus! {

/// Whether a line, without white space at its ends, says anything.
pub open spec fn speaks(line: Seq<char>) -> bool {
    line.len() > 0 && line[0] != '#'
}

/// The texts of a list that are not empty.
pub open spec fn not_empty(list: Seq<Seq<char>>) -> Seq<Seq<char>> {
    list.filter(|p: Seq<char>| p.len() > 0)
}

/// The principals of one line: its first word, split at the commas.
pub open spec fn line_principals(line: Seq<char>) -> Seq<Seq<char>> {
    let line = trimmed(line);
    if speaks(line) {
        let ws = words_of(line);
        not_empty(
            split_at_char(
                if ws.len() > 0 {
                    ws[0]
                } else {
                    seq![]
                },
                ',',
            ),
        )
    } else {
        seq![]
    }
}

/// The principals of a list of signers.
pub open spec fn principals(text: Seq<char>) -> Seq<Seq<char>> {
    let ls = lines_of(text);
    concat(Seq::new(ls.len(), |i: int| line_principals(ls[i])))
}

/// Whether a line, trimmed, is silent.
fn silent(line: &str) -> (r: bool)
    ensures
        r == !speaks(line@),
{
    let v = chars(line);
    v.len() == 0 || v[0] == '#'
}

/// Appends the texts of a list that are not empty.
fn append_not_empty(list: &Vec<String>, out: &mut Vec<String>)
    ensures
        texts(final(out)@) == texts(old(out)@) + not_empty(texts(list@)),
{
    let ghost start = texts(out@);
    let ghost all = texts(list@);
    let ghost keep = |p: Seq<char>| p.len() > 0;
    let mut i: usize = 0;
    assert(start + all.take(0).filter(keep) =~= start) by {
        reveal(Seq::filter);
    }
    while i < list.len()
        invariant
            i <= list@.len(),
            all == texts(list@),
            keep == (|p: Seq<char>| p.len() > 0),
            texts(out@) == start + all.take(i as int).filter(keep),
        decreases list@.len() - i,
    {
        let ghost seen = out@;
        assert(all.take(i + 1).drop_last() =~= all.take(i as int));
        if !list[i].as_str().is_empty() {
            out.push(list[i].clone());
            assert(texts(out@) =~= texts(seen).push(list@[i as int]@));
        }
        assert(texts(out@) =~= start + all.take(i + 1).filter(keep)) by {
            reveal(Seq::filter);
        }
        i = i + 1;
    }
    assert(all.take(i as int) =~= all);
}

/// The principals of a list of signers: the first field of each line that is
/// neither empty nor a comment, split at `,`, since a line may name several.
pub fn parse_principals(text: &str) -> (r: Vec<String>)
    ensures
        texts(r@) == principals(text@),
{
    let list = lines(text);
    let ghost all = lines_of(text@);
    let ghost found = Seq::new(all.len(), |i: int| line_principals(all[i]));
    let mut out: Vec<String> = Vec::new();
    let mut i: usize = 0;
    assert(texts(out@) =~= concat(found.take(0)));
    while i < list.len()
        invariant
            i <= list@.len(),
            all == texts(list@),
            found == Seq::new(all.len(), |i: int| line_principals(all[i])),
            texts(out@) == concat(found.take(i as int)),
        decreases list@.len() - i,
    {
        let ghost start = texts(out@);
        assert(found.take(i + 1).drop_last() =~= found.take(i as int));
        assert(all[i as int] == list@[i as int]@);
        let line = trim(list[i].as_str());
        if !silent(line.as_str()) {
            let ws = words(line.as_str());
            assert(texts(ws@).len() == ws@.len());
            if ws.len() > 0 {
                assert(texts(ws@)[0] == ws@[0]@);
                append_not_empty(&split(ws[0].as_str(), ','), &mut out);
            } else {
                append_not_empty(&split("", ','), &mut out);
                assert(""@ =~= seq![]) by {
                    reveal_strlit("");
                }
            }
        } else {
            assert(start + line_principals(all[i as int]) =~= start);
        }
        i = i + 1;
    }
    assert(found.take(i as int) =~= found);
    out
}

// ---------------------------------------------------------------------------
// What `ssh-keygen` writes.
// ---------------------------------------------------------------------------

/// The second word of a text, or nothing.
pub open spec fn second_word(text: Seq<char>) -> Seq<char> {
    let ws = words_of(text);
    if ws.len() > 1 {
        ws[1]
    } else {
        seq![]
    }
}

/// The fingerprint in what `ssh-keygen -l` writes, which is
/// `<bits> SHA256:... <comment> (<TYPE>)`: its second field.
pub fn fingerprint_field(text: &str) -> (r: String)
    ensures
        r@ == second_word(text@),
{
    let ws = words(text);
    assert(texts(ws@).len() == ws@.len());
    if ws.len() > 1 {
        assert(texts(ws@)[1] == ws@[1]@);
        ws[1].clone()
    } else {
        String::new()
    }
}

/// The fingerprint in what `ssh-keygen -Y verify` writes of a signature that it
/// found good, which ends in `with <TYPE> key SHA256:...`: its last word, behind
/// the word `key`. It is that of the key that made the signature.
pub open spec fn good_key(text: Seq<char>) -> Seq<char> {
    let ws = words_of(text);
    if ws.len() > 1 && ws[ws.len() - 2] == "key"@ {
        ws.last()
    } else {
        seq![]
    }
}

/// The fingerprint in what `ssh-keygen -Y verify` writes of a signature that it
/// found good.
pub fn signing_key_field(text: &str) -> (r: String)
    ensures
        r@ == good_key(text@),
{
    let ws = words(text);
    let n: usize = ws.len();
    assert(texts(ws@).len() == ws@.len());
    if n > 1 {
        assert(texts(ws@)[n - 2] == ws@[n - 2]@);
        assert(texts(ws@)[n - 1] == ws@[n - 1]@);
        if same(ws[n - 2].as_str(), "key") {
            return ws[n - 1].clone();
        }
    }
    String::new()
}

} // verus!
