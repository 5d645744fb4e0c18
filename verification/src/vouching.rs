//! Who vouches for the hooks: what a signature is worth, and which keys are trusted.
use crate::config::at_most_one;
use crate::content::{play_canonical_content, under_trust};
use crate::covering::{found_files, is_fair, lemma_content_told};
use crate::document::{entry, node_text, Entries, Node};
use crate::keeping::{
    all_lines, covered, good_hash, honest, kept_at, lemma_idles, lemma_parts, lemma_trusted_told,
    local_keys, policy_keys, tells, text_covered, Kept,
};
use crate::paths::path_joined;
use crate::policy::{declines, keys_trusted};
use crate::reading::lemma_concat_contains;
use crate::signers::{good_key, line_principals, not_empty, principals, second_word};
use crate::spelling::{law_concat, law_lines, lemma_filter_has};
use crate::text::{lines_of, split_at_char, texts, trimmed, words_of};
use crate::tracing::{
    lemma_asked_parts, lemma_content_silent, lemma_none_asked, replies_given, words_asked,
};
use crate::tree::tail;
use crate::trust::{
    play_allowed_principals, play_key_trusted, play_signature_line, play_signature_status,
    play_ssh_verify, play_try_principals, sig_path, signers_path, Signed,
};
use crate::world::{said, Exchange, Op, Outcome, Reply};
use vstd::prelude::*;

verus! {

// ---------------------------------------------------------------------------
// The signature.
// ---------------------------------------------------------------------------

/// Whether `ssh-keygen` found a signature good.
pub open spec fn found_good(reply: Reply) -> bool {
    reply matches Reply::Ran(Ok(f)) && f.code == Some(0i32)
}

/// How `ssh-keygen` is asked whether a principal signed a content.
pub open spec fn is_it_signed(
    content: Seq<char>,
    signers: Seq<char>,
    principal: Seq<char>,
    sig: Seq<char>,
) -> Seq<Seq<char>> {
    seq![
        content,
        "-Y"@,
        "verify"@,
        "-f"@,
        signers,
        "-I"@,
        principal,
        "-n"@,
        "git-hooks"@,
        "-s"@,
        sig,
    ]
}

/// Principals are tried in order, until one is found to have signed.
proof fn lemma_tries(
    log: Seq<Exchange>,
    at: int,
    signers: Seq<char>,
    sig: Seq<char>,
    content: Seq<char>,
    list: Seq<Seq<char>>,
    i: int,
    result: Signed,
    to: int,
)
    requires
        0 <= at <= log.len(),
        0 <= i <= list.len(),
        play_try_principals(log, at, signers, sig, content, list, i) == Outcome::Done(result, to),
    ensures
        at <= to <= log.len(),
        ({
            let asked = words_asked(log, Op::SshFeed, at, to);
            let heard = replies_given(log, Op::SshFeed, at, to);
            &&& asked.len() == heard.len() <= list.len() - i
            &&& forall|j: int|
                0 <= j < asked.len() ==> #[trigger] asked[j] == is_it_signed(
                    content,
                    signers,
                    list[i + j],
                    sig,
                )
            &&& forall|j: int| 0 <= j < heard.len() - 1 ==> !found_good(#[trigger] heard[j])
            &&& match result {
                Signed::Valid(principal, fingerprint) => heard.len() > 0 && found_good(heard.last())
                    && principal == list[i + heard.len() - 1] && fingerprint == good_key(
                    said(heard.last()->Ran_0->Ok_0),
                ),
                Signed::Invalid => heard.len() == list.len() - i && (heard.len() > 0
                    ==> !found_good(heard.last())),
                Signed::Unsigned => false,
            }
        }),
    decreases list.len() - i,
{
    if i < list.len() {
        assert(log[at].request.op == Op::SshFeed);
        let r = log[at].reply;
        let words = texts(log[at].request.words@);
        assert(words =~= is_it_signed(content, signers, list[i], sig));
        let asked = words_asked(log, Op::SshFeed, at, to);
        let heard = replies_given(log, Op::SshFeed, at, to);
        match play_ssh_verify(log, at, signers, list[i], sig, content) {
            Outcome::Done(None, next) => {
                lemma_tries(log, next, signers, sig, content, list, i + 1, result, to);
                let more = words_asked(log, Op::SshFeed, at + 1, to);
                let later = replies_given(log, Op::SshFeed, at + 1, to);
                assert(asked =~= seq![words] + more);
                assert(heard =~= seq![r] + later);
                assert forall|j: int| 0 <= j < asked.len() implies #[trigger] asked[j]
                    == is_it_signed(content, signers, list[i + j], sig) by {
                    if j > 0 {
                        assert(asked[j] == more[j - 1]);
                        assert(list[i + j] == list[i + 1 + (j - 1)]);
                    }
                }
                assert forall|j: int| 0 <= j < heard.len() - 1 implies !found_good(
                    #[trigger] heard[j],
                ) by {
                    if j > 0 {
                        assert(heard[j] == later[j - 1]);
                    }
                }
                if later.len() > 0 {
                    assert(heard.last() == later.last());
                }
            },
            _ => {
                reveal_with_fuel(words_asked, 3);
                reveal_with_fuel(replies_given, 3);
                assert(asked =~= seq![words]);
                assert(heard =~= seq![r]);
            },
        }
    }
}

/// Hooks are unsigned where there is no signature or no list of signers. Otherwise
/// `ssh-keygen` is asked of each that is listed, in order, whether they signed the content
/// as it is, without what belongs to the signature; the first who did makes the signature
/// valid, with the key that it names, and where none did it is invalid.
pub proof fn law_signature_is_checked(
    k: Kept,
    log: Seq<Exchange>,
    at: int,
    root: Seq<char>,
    result: Signed,
    to: int,
)
    requires
        0 <= at <= log.len(),
        good_hash(k.hash),
        is_fair(k, root),
        play_signature_status(k.windows, log, at, root) == Outcome::Done(result, to),
        honest(k, log, at, to),
    ensures
        ({
            let w = k.windows;
            let dir = path_joined(w, path_joined(w, root, ".githooks"@), "trust"@);
            let sig = path_joined(w, dir, "hooks.sig"@);
            let signers = path_joined(w, dir, "allowed_signers"@);
            let content = text_covered(
                k.hash,
                covered(w, k, root, found_files(k, log, at + 3, root), true),
            );
            &&& result is Unsigned <==> !(k.files.contains_key(sig) && k.files.contains_key(
                signers,
            ))
            &&& k.files.contains_key(sig) && k.files.contains_key(signers) ==> {
                let list = principals(k.files[signers]);
                let asked = words_asked(log, Op::SshFeed, at, to);
                let heard = replies_given(log, Op::SshFeed, at, to);
                &&& asked.len() == heard.len() <= list.len()
                &&& forall|j: int|
                    0 <= j < asked.len() ==> #[trigger] asked[j] == is_it_signed(
                        content,
                        signers,
                        list[j],
                        sig,
                    )
                &&& forall|j: int| 0 <= j < heard.len() - 1 ==> !found_good(#[trigger] heard[j])
                &&& result matches Signed::Valid(principal, fingerprint) ==> heard.len() > 0
                    && found_good(heard.last()) && principal == list[heard.len() - 1] && fingerprint
                    == good_key(said(heard.last()->Ran_0->Ok_0))
                &&& result is Invalid ==> heard.len() == list.len() && (heard.len() > 0
                    ==> !found_good(heard.last()))
            }
        }),
{
    let w = k.windows;
    let sig = sig_path(w, root);
    let signers = signers_path(w, root);
    assert(texts(log[at].request.words@) == seq![sig]);
    assert(texts(log[at].request.words@)[0] == sig);
    let content = play_canonical_content(w, log, at + 2, root, true)->Done_0;
    let b = play_canonical_content(w, log, at + 2, root, true)->Done_1;
    if play_canonical_content(w, log, at + 2, root, true) is Done && at + 2 <= log.len() {
        lemma_content_silent(w, log, at + 2, root, true);
        match play_allowed_principals(log, b, signers) {
            Outcome::Done(list, c) => {
                if play_try_principals(log, c, signers, sig, content, list, 0) == Outcome::Done(
                    result,
                    to,
                ) {
                    lemma_tries(log, c, signers, sig, content, list, 0, result, to);
                }
            },
            _ => {},
        }
    }
    assert(at < to);
    lemma_parts(k, log, at, at + 1, to);
    assert(kept_at(k, log, at, at + 1) == k) by {
        reveal_with_fuel(kept_at, 2);
    }
    if k.files.contains_key(sig) {
        assert(at + 1 < to);
        assert(texts(log[at + 1].request.words@) == seq![signers]);
        assert(texts(log[at + 1].request.words@)[0] == signers);
        assert(tells(k, log[at + 1]));
        if k.files.contains_key(signers) {
            let list = play_allowed_principals(log, b, signers)->Done_0;
            let c = play_allowed_principals(log, b, signers)->Done_1;
            lemma_parts(k, log, at, at + 2, to);
            assert(kept_at(k, log, at, at + 2) == k) by {
                reveal_with_fuel(kept_at, 3);
            }
            lemma_parts(k, log, at + 2, b, to);
            lemma_content_told(k, log, at + 2, root, true, content, b);
            lemma_idles(k, log, at + 2, b);
            assert(texts(log[b].request.words@) == seq![signers]);
            assert(texts(log[b].request.words@)[0] == signers);
            assert(tells(k, log[b]));
            assert(list == principals(k.files[signers]));
            lemma_asked_parts(log, Op::SshFeed, at, c, to);
            assert forall|i: int| at <= i < c implies (#[trigger] log[i]).request.op
                != Op::SshFeed by {}
            lemma_none_asked(log, Op::SshFeed, at, c);
            assert(words_asked(log, Op::SshFeed, at, to) =~= words_asked(log, Op::SshFeed, c, to));
            assert(replies_given(log, Op::SshFeed, at, to) =~= replies_given(
                log,
                Op::SshFeed,
                c,
                to,
            ));
        }
    }
}

/// What is left out of what is signed are the files in the directory of the signature, and
/// no others: the first name below the directory of hook scripts is `trust`, and another
/// name follows.
pub proof fn law_only_the_signature_is_left_out(names: Seq<Seq<char>>)
    requires
        forall|i: int|
            0 <= i < names.len() ==> (#[trigger] names[i]).len() > 0 && !names[i].contains('/'),
    ensures
        under_trust(".githooks"@ + tail('/', names)) <==> names.len() > 1 && names[0] == "trust"@,
{
    reveal_strlit("/trust/");
    reveal_strlit("trust");
    reveal_strlit(".githooks");
    let path = ".githooks"@ + tail('/', names);
    let head = ".githooks"@ + "/trust/"@;
    assert(crate::config::HOOKS_DIR@ == ".githooks"@);
    assert(under_trust(path) <==> 16 <= path.len() && path.take(16) == head);
    if names.len() > 0 {
        lemma_tail_front(names);
        let rest = names.drop_first();
        let first = names[0];
        let t = tail('/', names);
        assert(t == seq!['/'] + first + tail('/', rest));
        if under_trust(path) {
            assert(path.take(16)[15] == '/' && path.take(16)[10] == 't' && path.take(16)[11] == 'r'
                && path.take(16)[12] == 'u' && path.take(16)[13] == 's' && path.take(16)[14]
                == 't');
            assert(path[15] == '/' && path[10] == 't' && path[11] == 'r' && path[12] == 'u'
                && path[13] == 's' && path[14] == 't');
            if first.len() > 5 {
                assert(path[15] == first[5]);
                assert(first.contains(first[5]));
            } else if first.len() < 5 {
                assert(path[10int + first.len()] != '/');
                lemma_tail_begins(rest);
                if rest.len() > 0 {
                    assert(path[10int + first.len()] == tail('/', rest)[0]);
                }
            } else {
                assert(first =~= "trust"@) by {
                    assert(first[0] == path[10] && first[1] == path[11] && first[2] == path[12]
                        && first[3] == path[13] && first[4] == path[14]);
                }
                if rest.len() == 0 {
                    assert(tail('/', rest) =~= seq![]);
                }
            }
        }
        if names.len() > 1 && first == "trust"@ {
            lemma_tail_begins(rest);
            assert(path.take(16) =~= head);
        }
    } else {
        assert(tail('/', names) =~= seq![]);
    }
}

/// Names with a `/` before each begin with it.
proof fn lemma_tail_begins(names: Seq<Seq<char>>)
    ensures
        names.len() > 0 ==> tail('/', names).len() > 0 && tail('/', names)[0] == '/',
    decreases names.len(),
{
    if names.len() > 1 {
        lemma_tail_begins(names.drop_last());
    } else if names.len() == 1 {
        assert(tail('/', names.drop_last()) =~= seq![]);
    }
}

/// Names with a `/` before each, seen from their front.
proof fn lemma_tail_front(names: Seq<Seq<char>>)
    requires
        names.len() > 0,
    ensures
        tail('/', names) == seq!['/'] + names[0] + tail('/', names.drop_first()),
    decreases names.len(),
{
    if names.len() == 1 {
        assert(names.drop_last() =~= seq![]);
        assert(names.drop_first() =~= seq![]);
        assert(tail('/', names.drop_last()) =~= seq![]);
        assert(tail('/', names.drop_first()) =~= seq![]);
        assert(tail('/', names) =~= seq!['/'] + names[0] + tail('/', names.drop_first()));
    } else {
        let fewer = names.drop_last();
        lemma_tail_front(fewer);
        assert(fewer[0] == names[0]);
        assert(fewer.drop_first() =~= names.drop_first().drop_last());
        assert(names.drop_first().last() == names.last());
        assert(tail('/', names) =~= seq!['/'] + names[0] + tail('/', names.drop_first()));
    }
}

/// What is said of a signature: that there is none, that it is invalid, or whose it is and
/// whether the key is trusted.
pub proof fn law_signature_is_said(
    windows: bool,
    log: Seq<Exchange>,
    at: int,
    root: Seq<char>,
    signed: Signed,
    a: int,
)
    requires
        play_signature_status(windows, log, at, root) == Outcome::Done(signed, a),
    ensures
        signed is Unsigned ==> play_signature_line(windows, log, at, root) == Outcome::Done(
            "signature: unsigned"@,
            a,
        ),
        signed is Invalid ==> play_signature_line(windows, log, at, root) == Outcome::Done(
            "signature: present but INVALID"@,
            a,
        ),
        signed matches Signed::Valid(principal, fingerprint) ==> (play_key_trusted(
            windows,
            log,
            a,
            fingerprint,
        ) matches Outcome::Done(trusted, b) ==> play_signature_line(windows, log, at, root)
            == Outcome::Done(
            "signature: signed by "@ + principal + ", key "@ + fingerprint + " — valid, "@ + (
            if trusted {
                "trusted"@
            } else {
                "untrusted"@
            }),
            b,
        )),
{
}

// ---------------------------------------------------------------------------
// Keys and signers.
// ---------------------------------------------------------------------------

/// A policy trusts the strings in the array under `trusted_keys`, and declines by default
/// where the string under `default` is `decline`.
pub proof fn law_policy(doc: Entries, key: Seq<char>)
    ensures
        keys_trusted(doc).contains(key) <==> (entry(doc, "trusted_keys"@) matches Some(
            Node::List(list),
        ) && list.contains(Node::Text(key))),
        declines(doc) <==> entry(doc, "default"@) == Some(Node::Text("decline"@)),
{
    if let Some(Node::List(list)) = entry(doc, "trusted_keys"@) {
        let found = Seq::new(list.len(), |i: int| at_most_one(node_text(Some(list[i]))));
        lemma_concat_contains(found, key);
        if keys_trusted(doc).contains(key) {
            let i = choose|i: int| 0 <= i < found.len() && (#[trigger] found[i]).contains(key);
            assert(list[i] == Node::Text(key));
        }
        if list.contains(Node::Text(key)) {
            let i = choose|i: int| 0 <= i < list.len() && list[i] == Node::Text(key);
            assert(found[i] == seq![key]);
            assert(found[i][0] == key);
            assert(found[i].contains(key));
        }
    }
}

/// A key is trusted where the policy or the repository lists it. No key is not.
pub proof fn law_key_is_trusted(
    k: Kept,
    log: Seq<Exchange>,
    at: int,
    key: Seq<char>,
    trusted: bool,
    to: int,
)
    requires
        0 <= at,
        all_lines(local_keys(k)),
        play_key_trusted(k.windows, log, at, key) == Outcome::Done(trusted, to),
        honest(k, log, at, to),
    ensures
        trusted <==> key.len() > 0 && (policy_keys(k.windows, k).contains(key) || local_keys(
            k,
        ).contains(key)),
{
    if key.len() > 0 {
        lemma_trusted_told(k.windows, k, log, at, key, trusted, to);
    }
}

/// A principal is listed in a line, which is neither empty nor a comment, where it is one
/// of the parts between the commas of the first word.
pub proof fn law_line_lists(line: Seq<char>, principal: Seq<char>)
    ensures
        line_principals(line).contains(principal) <==> principal.len() > 0 && trimmed(line).len()
            > 0 && trimmed(line)[0] != '#' && words_of(trimmed(line)).len() > 0 && split_at_char(
            words_of(trimmed(line))[0],
            ',',
        ).contains(principal),
        trimmed(line).len() > 0 && trimmed(line)[0] != '#' && words_of(trimmed(line)).len() > 0
            ==> line_principals(line) == split_at_char(words_of(trimmed(line))[0], ',').filter(
            |p: Seq<char>| p.len() > 0,
        ),
{
    let t = trimmed(line);
    let ws = words_of(t);
    let first = if ws.len() > 0 {
        ws[0]
    } else {
        seq![]
    };
    let parts = split_at_char(first, ',');
    let keep = |p: Seq<char>| p.len() > 0;
    assert(not_empty(parts) == parts.filter(keep));
    lemma_filter_has(parts, keep, principal);
    if ws.len() == 0 {
        crate::text::lemma_before(first, ',');
        assert(parts =~= seq![first]);
    }
}

/// A list of signers is read line by line, in order.
pub proof fn law_signers_are_read_by_lines(line: Seq<char>, rest: Seq<char>)
    requires
        !line.contains('\n'),
        line.len() > 0 ==> line.last() != '\r',
    ensures
        principals(line + seq!['\n'] + rest) == line_principals(line) + principals(rest),
        line.len() > 0 ==> principals(line) == line_principals(line),
        principals(Seq::<char>::empty()) == Seq::<Seq<char>>::empty(),
{
    law_lines(line, rest);
    let one = line_principals(line);
    let none = Seq::<Seq<Seq<char>>>::empty();
    let ls = lines_of(rest);
    let found = Seq::new(ls.len(), |i: int| line_principals(ls[i]));
    let all = lines_of(line + seq!['\n'] + rest);
    assert(Seq::new(all.len(), |i: int| line_principals(all[i])) =~= seq![one] + found);
    law_concat(seq![one], found, one);
    let single = lines_of(line);
    if line.len() > 0 {
        assert(Seq::new(single.len(), |i: int| line_principals(single[i])) =~= seq![one]);
    }
    let no_lines = lines_of(Seq::<char>::empty());
    assert(Seq::new(no_lines.len(), |i: int| line_principals(no_lines[i])) =~= none);
}

/// The key that a good signature names is the last word, behind the word `key`; the
/// fingerprint of a key is the second word.
pub proof fn law_fingerprints(text: Seq<char>)
    ensures
        ({
            let ws = words_of(text);
            &&& good_key(text) == (if ws.len() > 1 && ws[ws.len() - 2] == "key"@ {
                ws[ws.len() - 1]
            } else {
                seq![]
            })
            &&& second_word(text) == (if ws.len() > 1 {
                ws[1]
            } else {
                seq![]
            })
        }),
{
}

} // verus!
