//! Hooks that were signed have a valid signature for as long as they stay as they are.
use crate::afterwards::lemma_tried_idles;
use crate::config::{CONFIG_FILE, HOOKS_DIR};
use crate::content::{or_empty, play_canonical_content, play_githooks_dir_files};
use crate::covering::{
    found_files, is_fair, left_out, lemma_blobs_end, lemma_content_told, lemma_covered_is_content,
    lemma_found, same_content,
};
use crate::git::trust_path;
use crate::keeping::{
    all_there, checks, covered, fair_principal, file_at, good_hash, honest, idles, kept_at,
    law_signature_holds_for_what_was_signed, law_signer_is_listed,
    law_signing_signs_what_is_covered, lemma_idles, lemma_options_differ, lemma_parts,
    lemma_walk_idles, plain_names, text_covered, yields_root, Kept,
};
use crate::order::{path_order, up_to};
use crate::paths::{is_name, lemma_joined_differs, lemma_name_joined, path_joined, up_to_name};
use crate::signers::principals;
use crate::signing::{
    line_added, play_announce_signer, play_list_signer, play_make_signature, play_principal,
    play_sign, play_ssh_capture, sign_args, sign_request,
};
use crate::text::{is_space, texts};
use crate::tree::{
    all_names, descended, lemma_descended, lemma_hooks_dir, lemma_rel, lies_under, plain_root,
    separator, tail,
};
use crate::trust::{play_allowed_principals, play_signature_status, sig_path, signers_path, Signed};
use crate::world::{asked_text, Exchange, Op, Outcome};
use vstd::prelude::*;
use vstd::relations::sorted_by;

verus! {

/// The files of the signature are not signed, and are none of the rest.
proof fn lemma_trust_files(windows: bool, root: Seq<char>)
    requires
        plain_root(windows, root),
    ensures
        left_out(windows, root, true, sig_path(windows, root)),
        left_out(windows, root, true, signers_path(windows, root)),
        sig_path(windows, root) != path_joined(windows, root, CONFIG_FILE@),
        signers_path(windows, root) != path_joined(windows, root, CONFIG_FILE@),
        sig_path(windows, root) != signers_path(windows, root),
{
    reveal_strlit("hooks.sig");
    reveal_strlit("allowed_signers");
    lemma_trust_file(windows, root, "hooks.sig"@);
    lemma_trust_file(windows, root, "allowed_signers"@);
    reveal_strlit(".");
    reveal_strlit("..");
    assert("hooks.sig"@.len() == 9 && "allowed_signers"@.len() == 15);
    lemma_joined_differs(windows, trust_path(windows, root), "hooks.sig"@, "allowed_signers"@);
}

/// A file of the signature is not signed, and is not the configuration.
proof fn lemma_trust_file(windows: bool, root: Seq<char>, name: Seq<char>)
    requires
        plain_root(windows, root),
        name == "hooks.sig"@ || name == "allowed_signers"@,
    ensures
        is_name(windows, name),
        left_out(windows, root, true, path_joined(windows, trust_path(windows, root), name)),
        path_joined(windows, trust_path(windows, root), name) != path_joined(
            windows,
            root,
            CONFIG_FILE@,
        ),
{
    reveal_strlit("hooks.sig");
    reveal_strlit("allowed_signers");
    reveal_strlit("trust");
    reveal_strlit("/trust/");
    reveal_strlit(".");
    reveal_strlit("..");
    reveal_strlit(".githooks");
    reveal_strlit(".githooks.toml");
    let dir = path_joined(windows, root, HOOKS_DIR@);
    let names = seq!["trust"@, name];
    let path = path_joined(windows, trust_path(windows, root), name);
    lemma_hooks_dir(windows, root);
    assert(is_name(windows, "trust"@));
    assert(all_names(windows, names));
    assert(names.drop_last() =~= seq!["trust"@]);
    assert(names.drop_last().drop_last() =~= seq![]);
    assert(descended(windows, dir, names) == path) by {
        reveal_with_fuel(descended, 3);
    }
    assert(tail('/', names) =~= "/trust/"@ + name) by {
        reveal_with_fuel(tail, 3);
    }
    lemma_rel(windows, root, names);
    let rel = HOOKS_DIR@ + tail('/', names);
    assert(rel =~= HOOKS_DIR@ + "/trust/"@ + name);
    assert(rel.take((HOOKS_DIR@ + "/trust/"@).len() as int) =~= HOOKS_DIR@ + "/trust/"@);
    let sep = separator(windows);
    lemma_descended(windows, dir, names);
    assert(CONFIG_FILE@ == ".githooks.toml"@ && HOOKS_DIR@ == ".githooks"@);
    assert(CONFIG_FILE@.len() == 14);
    assert(is_name(windows, CONFIG_FILE@));
    lemma_name_joined(windows, root, CONFIG_FILE@);
    let u = up_to_name(windows, root);
    let n = u.len() as int;
    assert(tail(sep, names)[0] == sep) by {
        reveal_with_fuel(tail, 3);
    }
    assert(path[n + 9] == sep);
    assert(path_joined(windows, root, CONFIG_FILE@)[n + 9] == '.');
}

/// Listing a signer changes no file but the list.
proof fn lemma_listed(
    k: Kept,
    log: Seq<Exchange>,
    at: int,
    path: Seq<char>,
    line: Seq<char>,
    to: int,
)
    requires
        0 <= at,
        play_list_signer(log, at, path, line) == Outcome::Done((), to),
    ensures
        at < to <= log.len(),
        forall|other: Seq<char>|
            other != path ==> #[trigger] file_at(kept_at(k, log, at, to), other) == file_at(
                k,
                other,
            ),
        kept_at(k, log, at, to).config == k.config,
        kept_at(k, log, at, to).dirs == k.dirs,
{
    reveal_with_fuel(kept_at, 3);
    if to == at + 2 {
        let text = asked_text(log, at, Op::ReadText, seq![path])->Done_0;
        let w = texts(log[at + 1].request.words@);
        assert(w == seq![path, line_added(or_empty(text), line)]);
        assert(w[0] == path);
    }
}

/// What signing leaves: a signature of the content, and the signer on the list.
proof fn lemma_signed(
    k: Kept,
    log: Seq<Exchange>,
    args: Seq<Seq<char>>,
    key: Seq<char>,
    signer: Option<Seq<char>>,
    root: Seq<char>,
    b: int,
    principal: Seq<char>,
    c: int,
    pubkey: Seq<char>,
    to: int,
)
    requires
        good_hash(k.hash),
        is_fair(k, root),
        sign_args(args) == Some((key, signer)),
        yields_root(log, 0, root),
        play_sign(k.windows, log, 0, args) == Outcome::Done((), to),
        honest(k, log, 0, to),
        play_make_signature(k.windows, log, 2, root, key) == Outcome::Done((), b),
        play_principal(log, b, signer) == Outcome::Done(principal, c),
        play_ssh_capture(log, c, seq!["-y"@, "-f"@, key]) == Outcome::Done(Some(pubkey), c + 1),
        fair_principal(principal),
        pubkey.len() > 0 && !is_space(pubkey.last()) && !pubkey.contains('\n'),
        or_empty(file_at(k, signers_path(k.windows, root))).len() > 0 ==> or_empty(
            file_at(k, signers_path(k.windows, root)),
        ).last() != '\r',
    ensures
        5 <= b <= to <= log.len(),
        k.files.contains_key(path_joined(k.windows, root, CONFIG_FILE@)),
        play_githooks_dir_files(k.windows, log, 3, root) is Done,
        play_githooks_dir_files(k.windows, log, 3, root)->Done_1 <= b - 3,
        honest(k, log, 3, b - 3),
        texts(log[b - 3].request.words@)[0] == text_covered(
            k.hash,
            covered(k.windows, k, root, found_files(k, log, 3, root), true),
        ),
        forall|path: Seq<char>|
            path != sig_path(k.windows, root) && path != signers_path(k.windows, root)
                ==> #[trigger] file_at(kept_at(k, log, 0, to), path) == file_at(k, path),
        kept_at(k, log, 0, to).config == k.config,
        kept_at(k, log, 0, to).files.contains_key(sig_path(k.windows, root)),
        file_at(
            kept_at(k, log, 0, to),
            signers_path(k.windows, root),
        ) matches Some(text) && principals(text).contains(principal),
{
    lemma_options_differ();
    let w = k.windows;
    let sig = sig_path(w, root);
    let signers = signers_path(w, root);
    let config = path_joined(w, root, CONFIG_FILE@);
    lemma_trust_files(w, root);
    assert(texts(log[0].request.words@) == seq!["rev-parse"@, "--show-toplevel"@]);
    assert(texts(log[0].request.words@)[0] == "rev-parse"@);
    assert(texts(log[1].request.words@) == seq![config]);
    assert(texts(log[1].request.words@)[0] == config);
    assert(idles(log, 0, 2));
    let d = c + 1;
    let line = principal + " "@ + pubkey;
    let e = play_list_signer(log, d, signers, line)->Done_1;
    let content = play_canonical_content(w, log, 2, root, true)->Done_0;
    assert(play_canonical_content(w, log, 2, root, true) == Outcome::Done(content, b - 3));
    lemma_content_ends(w, log, 2, root, content, b - 3);
    assert(play_announce_signer(w, log, b, root, key, signer) == Outcome::Done((), to));
    assert(b <= c <= b + 1);
    let k1 = kept_at(k, log, 0, b);
    lemma_listed(k1, log, d, signers, line, e);
    assert(to == e + 2);
    lemma_parts(k, log, 0, 2, to);
    lemma_idles(k, log, 0, 2);
    lemma_parts(k, log, 2, b - 3, to);
    lemma_content_told(k, log, 2, root, true, content, b - 3);
    lemma_found(k, log, 3, root, b - 3);
    lemma_parts(k, log, 2, b, to);
    let files = found_files(k, log, 3, root);
    let mid = play_githooks_dir_files(w, log, 3, root)->Done_1;
    law_signing_signs_what_is_covered(w, k, log, 2, root, key, files, mid, b);
    assert(sign_request(key, content)[0] == content);
    lemma_parts(k, log, 0, 2, b);
    lemma_parts(k, log, 0, b, to);
    assert(idles(log, b, d));
    lemma_parts(k1, log, b, d, to);
    lemma_idles(k1, log, b, d);
    lemma_parts(k1, log, d, e, to);
    law_signer_is_listed(k1, log, d, signers, principal, pubkey, e);
    let k2 = kept_at(k1, log, d, e);
    assert(idles(log, e, to));
    lemma_idles(k2, log, e, to);
    assert(kept_at(k, log, 0, to) == k2);
    assert forall|path: Seq<char>| path != sig && path != signers implies #[trigger] file_at(
        kept_at(k, log, 0, to),
        path,
    ) == file_at(k, path) by {
        assert(file_at(k2, path) == file_at(k1, path));
    }
    assert(file_at(k2, sig) == file_at(k1, sig));
}

/// Forming the content takes a few exchanges.
proof fn lemma_content_ends(
    windows: bool,
    log: Seq<Exchange>,
    at: int,
    root: Seq<char>,
    content: Seq<char>,
    to: int,
)
    requires
        0 <= at,
        play_canonical_content(windows, log, at, root, true) == Outcome::Done(content, to),
    ensures
        play_githooks_dir_files(windows, log, at + 1, root) is Done,
        play_githooks_dir_files(windows, log, at + 1, root)->Done_1 <= to,
        at < to <= log.len(),
{
    let files = play_githooks_dir_files(windows, log, at + 1, root)->Done_0;
    let mid = play_githooks_dir_files(windows, log, at + 1, root)->Done_1;
    lemma_walk_idles(windows, log, at + 1, seq![path_joined(windows, root, HOOKS_DIR@)], seq![]);
    lemma_blobs_end(windows, log, mid, root, files, true, 0, seq![]);
}

/// The files that are found when the signature is looked at.
proof fn lemma_status_found(
    k: Kept,
    log: Seq<Exchange>,
    at: int,
    root: Seq<char>,
    principal: Seq<char>,
    result: Signed,
    to: int,
)
    requires
        0 <= at <= log.len(),
        good_hash(k.hash),
        is_fair(k, root),
        k.files.contains_key(sig_path(k.windows, root)),
        k.files.contains_key(signers_path(k.windows, root)),
        play_signature_status(k.windows, log, at, root) == Outcome::Done(result, to),
        honest(k, log, at, to),
    ensures
        play_githooks_dir_files(k.windows, log, at + 3, root) is Done,
        found_files(k, log, at + 3, root).no_duplicates(),
        forall|path: Seq<char>| #[trigger]
            found_files(k, log, at + 3, root).contains(path) <==> k.files.contains_key(path)
                && lies_under(k.windows, path_joined(k.windows, root, HOOKS_DIR@), path),
        sorted_by(found_files(k, log, at + 3, root), up_to(path_order(k.windows))),
        all_there(k, found_files(k, log, at + 3, root)),
        plain_names(k.windows, root, found_files(k, log, at + 3, root)),
{
    let w = k.windows;
    let sig = sig_path(w, root);
    let signers = signers_path(w, root);
    let content = play_canonical_content(w, log, at + 2, root, true)->Done_0;
    let b = play_canonical_content(w, log, at + 2, root, true)->Done_1;
    if play_canonical_content(w, log, at + 2, root, true) is Done {
        lemma_content_ends(w, log, at + 2, root, content, b);
        match play_allowed_principals(log, b, signers) {
            Outcome::Done(list, c) => {
                lemma_tried_idles(log, c, signers, sig, content, list, 0);
            },
            _ => {},
        }
    }
    assert(texts(log[at].request.words@) == seq![sig]);
    assert(texts(log[at].request.words@)[0] == sig);
    lemma_parts(k, log, at, at + 1, to);
    lemma_idles(k, log, at, at + 1);
    assert(texts(log[at + 1].request.words@) == seq![signers]);
    assert(texts(log[at + 1].request.words@)[0] == signers);
    assert(idles(log, at, at + 2));
    lemma_parts(k, log, at, at + 2, to);
    lemma_idles(k, log, at, at + 2);
    lemma_parts(k, log, at + 2, b, to);
    lemma_content_told(k, log, at + 2, root, true, content, b);
    lemma_found(k, log, at + 3, root, b);
}

/// Signing the hooks leaves their content as it is. The signature is then valid for as
/// long as the content stays as it was signed, and invalid otherwise, if `ssh-keygen`
/// finds it good for exactly the text and the principal that it was made for. The key and
/// the principal keep to one line, and are fit for the list of signers.
pub proof fn law_signed_hooks_are_valid(
    k: Kept,
    log: Seq<Exchange>,
    args: Seq<Seq<char>>,
    key: Seq<char>,
    signer: Option<Seq<char>>,
    root: Seq<char>,
    b: int,
    principal: Seq<char>,
    c: int,
    pubkey: Seq<char>,
    to: int,
    k2: Kept,
    log2: Seq<Exchange>,
    at2: int,
    fingerprint: Seq<char>,
    result: Signed,
    to2: int,
)
    requires
        good_hash(k.hash),
        is_fair(k, root),
        sign_args(args) == Some((key, signer)),
        yields_root(log, 0, root),
        play_sign(k.windows, log, 0, args) == Outcome::Done((), to),
        honest(k, log, 0, to),
        play_make_signature(k.windows, log, 2, root, key) == Outcome::Done((), b),
        play_principal(log, b, signer) == Outcome::Done(principal, c),
        play_ssh_capture(log, c, seq!["-y"@, "-f"@, key]) == Outcome::Done(Some(pubkey), c + 1),
        fair_principal(principal),
        pubkey.len() > 0 && !is_space(pubkey.last()) && !pubkey.contains('\n'),
        or_empty(file_at(k, signers_path(k.windows, root))).len() > 0 ==> or_empty(
            file_at(k, signers_path(k.windows, root)),
        ).last() != '\r',
        0 <= at2 <= log2.len(),
        k2.windows == k.windows,
        k2.hash == k.hash,
        is_fair(k2, root),
        k2.files.contains_key(path_joined(k.windows, root, CONFIG_FILE@)),
        file_at(k2, sig_path(k.windows, root)) == file_at(
            kept_at(k, log, 0, to),
            sig_path(k.windows, root),
        ),
        file_at(k2, signers_path(k.windows, root)) == file_at(
            kept_at(k, log, 0, to),
            signers_path(k.windows, root),
        ),
        play_signature_status(k.windows, log2, at2, root) == Outcome::Done(result, to2),
        honest(k2, log2, at2, to2),
        forall|j: int|
            0 <= j < log2.len() ==> checks(
                #[trigger] log2[j],
                principal,
                fingerprint,
                texts(log[b - 3].request.words@)[0],
            ),
    ensures
        same_content(k, kept_at(k, log, 0, to), root, true),
        kept_at(k, log, 0, to).config == k.config,
        result == (if same_content(k, k2, root, true) {
            Signed::Valid(principal, fingerprint)
        } else {
            Signed::Invalid
        }),
{
    let w = k.windows;
    let files = found_files(k, log, 3, root);
    let files2 = found_files(k2, log2, at2 + 3, root);
    lemma_signed(k, log, args, key, signer, root, b, principal, c, pubkey, to);
    lemma_trust_files(w, root);
    lemma_found(k, log, 3, root, b - 3);
    lemma_status_found(k2, log2, at2, root, principal, result, to2);
    let mid2 = play_githooks_dir_files(w, log2, at2 + 3, root)->Done_1;
    law_signature_holds_for_what_was_signed(
        w,
        k,
        files,
        k2,
        log2,
        at2,
        root,
        files2,
        mid2,
        principal,
        fingerprint,
        to2,
        result,
    );
    lemma_covered_is_content(k, k2, root, files, files2, true);
}

} // verus!
