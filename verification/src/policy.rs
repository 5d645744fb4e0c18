//! The org-wide policy: which signing keys are trusted, and whether hooks
//! without a trusted signature are declined outright.
use crate::config::at_most_one;
use crate::document::{
    entries_ordered, entry, get_list, get_text, lemma_entry_found, lemma_item_view,
    lemma_replace_entry, lemma_simple_table, lemma_with_entry, lemma_with_same_entry, list_nodes,
    node_list, node_ordered, node_text, put_entry, simple_document, simple_key, simple_node,
    table_nodes, take_entry, with_entry, Document, Entries, Item, Node,
};
use crate::text::{concat, same, texts};
use vstd::prelude::*;

verus! {

/// The strings of an array.
pub open spec fn list_texts(list: Seq<Node>) -> Seq<Seq<char>> {
    concat(Seq::new(list.len(), |i: int| at_most_one(node_text(Some(list[i])))))
}

/// The keys that a policy trusts.
pub open spec fn keys_trusted(doc: Entries) -> Seq<Seq<char>> {
    match node_list(entry(doc, "trusted_keys"@)) {
        Some(list) => list_texts(list),
        None => seq![],
    }
}

/// Whether a policy declines hooks without a trusted signature.
pub open spec fn declines(doc: Entries) -> bool {
    node_text(entry(doc, "default"@)) == Some("decline"@)
}

/// The keys that a policy trusts.
pub fn trusted_keys(doc: &Document) -> (r: Vec<String>)
    ensures
        texts(r@) == keys_trusted(table_nodes(doc@)),
{
    let mut out: Vec<String> = Vec::new();
    let list = match get_list(doc, "trusted_keys") {
        Some(list) => list,
        None => {
            assert(texts(out@) =~= keys_trusted(table_nodes(doc@)));
            return out;
        },
    };
    let ghost nodes = list_nodes(list@);
    let ghost found = Seq::new(nodes.len(), |i: int| at_most_one(node_text(Some(nodes[i]))));
    let mut i: usize = 0;
    assert(texts(out@) =~= concat(found.take(0)));
    while i < list.len()
        invariant
            i <= list@.len(),
            nodes == list_nodes(list@),
            found == Seq::new(nodes.len(), |i: int| at_most_one(node_text(Some(nodes[i])))),
            texts(out@) == concat(found.take(i as int)),
        decreases list@.len() - i,
    {
        let ghost seen = out@;
        assert(found.take(i + 1).drop_last() =~= found.take(i as int));
        assert(nodes[i as int] == list@[i as int]@);
        if let Item::Text(key) = &list[i] {
            out.push(key.clone());
            assert(texts(out@) =~= texts(seen) + seq![key@]);
        }
        assert(texts(out@) =~= concat(found.take(i + 1)));
        i = i + 1;
    }
    assert(found.take(i as int) =~= found);
    out
}

/// Whether a policy declines hooks without a trusted signature.
pub fn default_decline(doc: &Document) -> (r: bool)
    ensures
        r == declines(table_nodes(doc@)),
{
    match get_text(doc, "default") {
        Some(s) => same(s.as_str(), "decline"),
        None => false,
    }
}

/// A policy that trusts `key` too, or the reason why it cannot.
pub open spec fn with_key(doc: Entries, key: Seq<char>) -> Result<Entries, Seq<char>> {
    let found = match entry(doc, "trusted_keys"@) {
        Some(n) => n,
        None => Node::List(seq![]),
    };
    match found {
        Node::List(list) => Ok(
            with_entry(
                doc,
                "trusted_keys"@,
                Node::List(
                    if list.contains(Node::Text(key)) {
                        list
                    } else {
                        list.push(Node::Text(key))
                    },
                ),
            ),
        ),
        _ => Err("trusted_keys must be an array"@),
    }
}

/// A policy that does not trust `key`.
pub open spec fn without_key(doc: Entries, key: Seq<char>) -> Entries {
    match entry(doc, "trusted_keys"@) {
        Some(Node::List(list)) => with_entry(
            doc,
            "trusted_keys"@,
            Node::List(list.filter(|n: Node| n != Node::Text(key))),
        ),
        _ => doc,
    }
}

/// Whether some element of an array is the string `key`.
fn lists(list: &Vec<Item>, key: &str) -> (r: bool)
    ensures
        r == list_nodes(list@).contains(Node::Text(key@)),
{
    let mut i: usize = 0;
    while i < list.len()
        invariant
            i <= list@.len(),
            forall|j: int| 0 <= j < i ==> (#[trigger] list@[j])@ != Node::Text(key@),
        decreases list@.len() - i,
    {
        if let Item::Text(s) = &list[i] {
            if same(s.as_str(), key) {
                assert(list_nodes(list@)[i as int] == Node::Text(key@));
                return true;
            }
        }
        i = i + 1;
    }
    false
}

/// Makes a policy trust `key` too, unless it does.
pub fn trust_key(doc: Document, key: &str) -> (r: Result<Document, String>)
    requires
        entries_ordered(table_nodes(doc@)),
    ensures
        match r {
            Ok(d) => with_key(table_nodes(doc@), key@) == Ok::<Entries, Seq<char>>(
                table_nodes(d@),
            ) && entries_ordered(table_nodes(d@)),
            Err(e) => with_key(table_nodes(doc@), key@) == Err::<Entries, Seq<char>>(e@),
        },
{
    broadcast use lemma_item_view;

    let ghost whole = table_nodes(doc@);
    let mut doc = doc;
    let mut list = match take_entry(&mut doc, "trusted_keys") {
        Some(Item::List(l)) => l,
        Some(_) => return Err("trusted_keys must be an array".to_string()),
        None => Vec::new(),
    };
    let ghost before = list_nodes(list@);
    assert(before == match node_list(entry(whole, "trusted_keys"@)) {
        Some(l) => l,
        None => seq![],
    });
    assert(node_ordered(Node::List(before)));
    if !lists(&list, key) {
        list.push(Item::Text(key.to_owned()));
        assert(list_nodes(list@) =~= before.push(Node::Text(key@)));
    }
    let changed = Item::List(list);
    proof {
        assert forall|i: int| 0 <= i < list_nodes(list@).len() implies node_ordered(
            #[trigger] list_nodes(list@)[i],
        ) by {
            if i < before.len() {
                assert(node_ordered(before[i]));
            }
        }
        lemma_replace_entry(whole, "trusted_keys"@, changed@);
        assert(node_ordered(changed@));
        assert(changed@ == Node::List(list_nodes(list@)));
    }
    put_entry(&mut doc, "trusted_keys", changed);
    Ok(doc)
}

/// Makes a policy trust `key` no longer.
pub fn untrust_key(doc: Document, key: &str) -> (r: Document)
    requires
        entries_ordered(table_nodes(doc@)),
    ensures
        table_nodes(r@) == without_key(table_nodes(doc@), key@),
        entries_ordered(table_nodes(r@)),
{
    broadcast use lemma_item_view;

    let ghost whole = table_nodes(doc@);
    if get_list(&doc, "trusted_keys").is_none() {
        return doc;
    }
    let mut doc = doc;
    let list = match take_entry(&mut doc, "trusted_keys") {
        Some(Item::List(l)) => l,
        _ => Vec::new(),
    };
    let ghost before = list_nodes(list@);
    assert(node_list(entry(whole, "trusted_keys"@)) == Some(before));
    assert(node_ordered(Node::List(before)));
    let ghost all = list@;
    let ghost keep = |n: Node| n != Node::Text(key@);
    let mut out: Vec<Item> = Vec::new();
    assert(list_nodes(out@) =~= before.take(0).filter(keep)) by {
        reveal(Seq::filter);
    }
    for item in it: list
        invariant
            it.seq() == all,
            before == list_nodes(all),
            keep == (|n: Node| n != Node::Text(key@)),
            forall|i: int| 0 <= i < before.len() ==> node_ordered(#[trigger] before[i]),
            list_nodes(out@) == before.take(it.index()).filter(keep),
            forall|i: int| 0 <= i < out@.len() ==> node_ordered((#[trigger] out@[i])@),
    {
        let ghost i = it.index();
        let ghost seen = list_nodes(out@);
        assert(item == all[i]);
        assert(node_ordered(before[i]));
        assert(before.take(i + 1).drop_last() =~= before.take(i));
        let gone = match &item {
            Item::Text(s) => same(s.as_str(), key),
            _ => false,
        };
        assert(gone == !keep(item@));
        if !gone {
            out.push(item);
            assert(list_nodes(out@) =~= seen.push(item@));
        }
        assert(list_nodes(out@) =~= before.take(i + 1).filter(keep)) by {
            reveal(Seq::filter);
        }
    }
    assert(before.take(before.len() as int) =~= before);
    let changed = Item::List(out);
    proof {
        lemma_replace_entry(whole, "trusted_keys"@, changed@);
        assert forall|i: int| 0 <= i < list_nodes(out@).len() implies node_ordered(
            #[trigger] list_nodes(out@)[i],
        ) by {
            assert(node_ordered(out@[i]@));
        }
        assert(node_ordered(changed@));
        assert(changed@ == Node::List(list_nodes(out@)));
    }
    put_entry(&mut doc, "trusted_keys", changed);
    doc
}

// ---------------------------------------------------------------------------
// Laws.
// ---------------------------------------------------------------------------

/// The strings of an array are those of its elements that are strings.
proof fn lemma_list_texts(list: Seq<Node>, key: Seq<char>)
    ensures
        list_texts(list).contains(key) <==> list.contains(Node::Text(key)),
    decreases list.len(),
{
    let found = Seq::new(list.len(), |i: int| at_most_one(node_text(Some(list[i]))));
    if list.len() > 0 {
        let fewer = list.drop_last();
        let part = Seq::new(fewer.len(), |i: int| at_most_one(node_text(Some(fewer[i]))));
        assert(found.drop_last() =~= part);
        lemma_list_texts(fewer, key);
        let a = list_texts(fewer);
        let b = found.last();
        assert(list_texts(list) == a + b);
        if (a + b).contains(key) {
            let i = choose|i: int| 0 <= i < (a + b).len() && (a + b)[i] == key;
            if i < a.len() {
                assert(a[i] == key);
                let k = choose|k: int| 0 <= k < fewer.len() && fewer[k] == Node::Text(key);
                assert(list[k] == Node::Text(key));
            } else {
                assert(b[i - a.len()] == key);
                assert(list[list.len() - 1] == Node::Text(key));
            }
        }
        if list.contains(Node::Text(key)) {
            let i = choose|i: int| 0 <= i < list.len() && list[i] == Node::Text(key);
            if i < fewer.len() {
                assert(fewer[i] == Node::Text(key));
                let k = choose|k: int| 0 <= k < a.len() && a[k] == key;
                assert((a + b)[k] == key);
            } else {
                assert((a + b)[a.len() as int] == key);
            }
        }
    }
}

/// A policy that was told to trust a key trusts it and every key that it
/// trusted before, and no other; its default is what it was.
pub proof fn law_trusted_after_trust(doc: Entries, key: Seq<char>)
    requires
        entries_ordered(doc),
        with_key(doc, key) is Ok,
    ensures
        forall|k: Seq<char>| #[trigger]
            keys_trusted(with_key(doc, key)->Ok_0).contains(k) <==> k == key || keys_trusted(
                doc,
            ).contains(k),
        declines(with_key(doc, key)->Ok_0) == declines(doc),
{
    reveal_strlit("trusted_keys");
    reveal_strlit("default");
    assert("trusted_keys"@.len() != "default"@.len());
    let list = match entry(doc, "trusted_keys"@) {
        Some(Node::List(l)) => l,
        _ => seq![],
    };
    let more = if list.contains(Node::Text(key)) {
        list
    } else {
        list.push(Node::Text(key))
    };
    lemma_with_entry(doc, "trusted_keys"@, Node::List(more));
    let after = with_key(doc, key)->Ok_0;
    assert(keys_trusted(after) == list_texts(more));
    assert forall|k: Seq<char>| #[trigger] keys_trusted(after).contains(k) <==> k == key
        || keys_trusted(doc).contains(k) by {
        lemma_list_texts(more, k);
        lemma_list_texts(list, k);
        if list.contains(Node::Text(k)) {
            let i = choose|i: int| 0 <= i < list.len() && list[i] == Node::Text(k);
            assert(more[i] == Node::Text(k));
        }
        if more.contains(Node::Text(k)) && !list.contains(Node::Text(k)) {
            let i = choose|i: int| 0 <= i < more.len() && more[i] == Node::Text(k);
            assert(i == list.len());
        }
        if !list.contains(Node::Text(key)) {
            assert(more[list.len() as int] == Node::Text(key));
        }
        if entry(doc, "trusted_keys"@) is None {
            assert(list_texts(list) =~= keys_trusted(doc));
        }
    }
}

/// A policy that was told not to trust a key does not trust it, and trusts every
/// other key as before; its default is what it was.
pub proof fn law_not_trusted_after_untrust(doc: Entries, key: Seq<char>)
    requires
        entries_ordered(doc),
    ensures
        forall|k: Seq<char>| #[trigger]
            keys_trusted(without_key(doc, key)).contains(k) <==> k != key && keys_trusted(
                doc,
            ).contains(k),
        declines(without_key(doc, key)) == declines(doc),
{
    reveal_strlit("trusted_keys");
    reveal_strlit("default");
    assert("trusted_keys"@.len() != "default"@.len());
    let after = without_key(doc, key);
    match entry(doc, "trusted_keys"@) {
        Some(Node::List(list)) => {
            let keep = |n: Node| n != Node::Text(key);
            let fewer = list.filter(keep);
            lemma_with_entry(doc, "trusted_keys"@, Node::List(fewer));
            assert forall|k: Seq<char>| #[trigger] keys_trusted(after).contains(k) <==> k != key
                && keys_trusted(doc).contains(k) by {
                broadcast use vstd::seq_lib::group_filter_ensures;

                lemma_list_texts(fewer, k);
                lemma_list_texts(list, k);
                if fewer.contains(Node::Text(k)) {
                    list.lemma_filter_contains_rev(keep, Node::Text(k));
                    let i = choose|i: int| 0 <= i < fewer.len() && fewer[i] == Node::Text(k);
                    assert(keep(fewer[i]));
                }
                if k != key && list.contains(Node::Text(k)) {
                    let i = choose|i: int| 0 <= i < list.len() && list[i] == Node::Text(k);
                    assert(keep(list[i]));
                    assert(fewer.contains(list[i]));
                }
            }
        },
        _ => {},
    }
}

/// A policy of plain values stays one when it is told to trust a key, or not to: so
/// what is written is read back, with the key trusted or not.
pub proof fn law_policy_stays_simple(doc: Entries, key: Seq<char>)
    requires
        entries_ordered(doc),
        simple_document(doc),
    ensures
        with_key(doc, key) matches Ok(after) ==> simple_document(after),
        simple_document(without_key(doc, key)),
{
    reveal_strlit("trusted_keys");
    assert(simple_key("trusted_keys"@));
    lemma_entry_found(doc, "trusted_keys"@);
    let list = match entry(doc, "trusted_keys"@) {
        Some(Node::List(l)) => l,
        _ => seq![],
    };
    assert(forall|i: int| 0 <= i < list.len() ==> simple_node(#[trigger] list[i], 15)) by {
        if entry(doc, "trusted_keys"@) is Some {
            let n = entry(doc, "trusted_keys"@)->Some_0;
            let i = choose|i: int|
                0 <= i < doc.len() && (#[trigger] doc[i]) == ("trusted_keys"@, n);
            assert(simple_node(doc[i].1, 16));
        }
    }
    let longer = list.push(Node::Text(key));
    assert forall|i: int| 0 <= i < longer.len() implies simple_node(#[trigger] longer[i], 15) by {
        if i < list.len() {
            assert(simple_node(list[i], 15));
        }
    }
    assert(simple_node(Node::List(list), 16));
    assert(simple_node(Node::List(longer), 16));
    lemma_simple_table(doc, "trusted_keys"@, Node::List(list), 16);
    lemma_simple_table(doc, "trusted_keys"@, Node::List(longer), 16);
    let keep = |n: Node| n != Node::Text(key);
    let fewer = list.filter(keep);
    assert forall|i: int| 0 <= i < fewer.len() implies simple_node(#[trigger] fewer[i], 15) by {
        assert(fewer.contains(fewer[i]));
        list.lemma_filter_contains_rev(keep, fewer[i]);
    }
    assert(simple_node(Node::List(fewer), 16));
    lemma_simple_table(doc, "trusted_keys"@, Node::List(fewer), 16);
}

/// An array with one more string.
proof fn lemma_list_texts_push(list: Seq<Node>, key: Seq<char>)
    ensures
        list_texts(list.push(Node::Text(key))) == list_texts(list).push(key),
{
    let more = list.push(Node::Text(key));
    let found = Seq::new(more.len(), |i: int| at_most_one(node_text(Some(more[i]))));
    assert(found.drop_last() =~= Seq::new(
        list.len(),
        |i: int| at_most_one(node_text(Some(list[i]))),
    ));
    assert(found.last() == seq![key]);
    assert(list_texts(list) + seq![key] =~= list_texts(list).push(key));
}

/// A policy that was told to trust a key trusts the keys that it trusted before, in
/// their order, and this one at their end, unless it was among them. Every other
/// entry keeps its value. Telling it once more changes nothing.
pub proof fn law_trust_keeps_the_rest(doc: Entries, key: Seq<char>)
    requires
        entries_ordered(doc),
        with_key(doc, key) is Ok,
    ensures
        keys_trusted(with_key(doc, key)->Ok_0) == (if keys_trusted(doc).contains(key) {
            keys_trusted(doc)
        } else {
            keys_trusted(doc).push(key)
        }),
        forall|other: Seq<char>|
            other != "trusted_keys"@ ==> #[trigger] entry(with_key(doc, key)->Ok_0, other) == entry(
                doc,
                other,
            ),
        with_key(with_key(doc, key)->Ok_0, key) == with_key(doc, key),
{
    let list = match entry(doc, "trusted_keys"@) {
        Some(Node::List(l)) => l,
        _ => seq![],
    };
    let more = if list.contains(Node::Text(key)) {
        list
    } else {
        list.push(Node::Text(key))
    };
    let new = with_key(doc, key)->Ok_0;
    lemma_with_entry(doc, "trusted_keys"@, Node::List(more));
    lemma_list_texts(list, key);
    lemma_list_texts_push(list, key);
    if entry(doc, "trusted_keys"@) is None {
        assert(list_texts(list) =~= seq![]);
    }
    if !list.contains(Node::Text(key)) {
        assert(more[list.len() as int] == Node::Text(key));
    }
    assert(more.contains(Node::Text(key)));
    lemma_with_same_entry(new, "trusted_keys"@, Node::List(more));
}

} // verus!
