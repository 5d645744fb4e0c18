//! TOML documents as plain values.
//!
//! The `toml` crate reads and prints the text. A document read by it is taken
//! apart layer by layer into an [`Item`], which holds ordinary strings and
//! vectors, and put together again the same way before it is printed.
use crate::order::{
    comes_before, lemma_connected, lemma_irreflexive, lemma_transitive, precedes, Order,
};
use crate::text::{maybe, same};
use vstd::prelude::*;

verus! {

// ---------------------------------------------------------------------------
// The mathematical reading of a document.
// ---------------------------------------------------------------------------

/// A day.
#[derive(Clone, Copy, Debug, PartialEq, Eq)]
pub struct Day {
    /// The year.
    pub year: u16,
    /// The month, counted from 1.
    pub month: u8,
    /// The day of the month, counted from 1.
    pub day: u8,
}

/// A time of day.
#[derive(Clone, Copy, Debug, PartialEq, Eq)]
pub struct Clock {
    /// The hour.
    pub hour: u8,
    /// The minute.
    pub minute: u8,
    /// The second, if it is given.
    pub second: Option<u8>,
    /// The part of a second, if it is given.
    pub nanosecond: Option<u32>,
}

/// How far a time is from that of Greenwich.
#[derive(Clone, Copy, Debug, PartialEq, Eq)]
pub enum Zone {
    /// It is that of Greenwich.
    Zulu,
    /// By so many minutes.
    Minutes(i16),
}

/// A TOML date: a day, a time of day, or both.
#[derive(Clone, Copy, Debug, PartialEq, Eq)]
pub struct Moment {
    /// The day.
    pub date: Option<Day>,
    /// The time of day.
    pub time: Option<Clock>,
    /// The time zone.
    pub offset: Option<Zone>,
}

/// A TOML value.
pub enum Node {
    /// A string.
    Text(Seq<char>),
    /// An array.
    List(Seq<Node>),
    /// A table: its keys and their values, in the order of the keys.
    Table(Seq<(Seq<char>, Node)>),
    /// An integer.
    Int(i64),
    /// A boolean.
    Bool(bool),
    /// A date.
    Date(Moment),
    /// A float. Nothing here looks inside.
    Other(toml::Value),
}

/// The entries of a table, in the order of their keys.
pub type Entries = Seq<(Seq<char>, Node)>;

/// Whether the keys are all different and stand in order.
pub open spec fn keys_ordered(entries: Entries) -> bool {
    forall|i: int, j: int|
        0 <= i < j < entries.len() ==> precedes(
            Order::Text,
            #[trigger] entries[i].0,
            #[trigger] entries[j].0,
        )
}

/// Whether the keys of every table inside `n` stand in order, and what is kept as
/// it was read is a float.
pub open spec fn node_ordered(n: Node) -> bool
    decreases n,
{
    match n {
        Node::Text(_) => true,
        Node::Int(_) => true,
        Node::Bool(_) => true,
        Node::Date(_) => true,
        Node::List(l) => forall|i: int| 0 <= i < l.len() ==> node_ordered(#[trigger] l[i]),
        Node::Table(t) => keys_ordered(t) && forall|i: int|
            0 <= i < t.len() ==> node_ordered((#[trigger] t[i]).1),
        Node::Other(v) => node_of(v) == n,
    }
}

/// Whether the keys of a document, and of every table inside it, stand in order.
pub open spec fn entries_ordered(entries: Entries) -> bool {
    node_ordered(Node::Table(entries))
}

/// The value that `key` has among `entries`.
pub open spec fn entry(entries: Entries, key: Seq<char>) -> Option<Node>
    decreases entries.len(),
{
    if entries.len() == 0 {
        None
    } else if entries[0].0 == key {
        Some(entries[0].1)
    } else {
        entry(entries.drop_first(), key)
    }
}

/// The text of a string value.
pub open spec fn node_text(n: Option<Node>) -> Option<Seq<char>> {
    match n {
        Some(Node::Text(s)) => Some(s),
        _ => None,
    }
}

/// The elements of an array value.
pub open spec fn node_list(n: Option<Node>) -> Option<Seq<Node>> {
    match n {
        Some(Node::List(l)) => Some(l),
        _ => None,
    }
}

/// The entries of a table value.
pub open spec fn node_table(n: Option<Node>) -> Option<Entries> {
    match n {
        Some(Node::Table(t)) => Some(t),
        _ => None,
    }
}

// ---------------------------------------------------------------------------
// Documents of plain values.
// ---------------------------------------------------------------------------

/// Whether a key is none of those that the `toml` crate keeps for itself, which all
/// begin in `$`.
pub open spec fn simple_key(k: Seq<char>) -> bool {
    k.len() > 0 ==> k[0] != '$'
}

/// How many days a month has.
pub open spec fn days_in(year: int, month: int) -> int {
    if month == 2 {
        if year % 4 == 0 && (year % 100 != 0 || year % 400 == 0) {
            29
        } else {
            28
        }
    } else if month == 4 || month == 6 || month == 9 || month == 11 {
        30
    } else {
        31
    }
}

/// Whether a day is in the calendar, with a year of four digits.
pub open spec fn fair_day(d: Day) -> bool {
    d.year <= 9999 && 1 <= d.month <= 12 && 1 <= d.day <= days_in(d.year as int, d.month as int)
}

/// Whether a time of day is one, leap seconds included. A part of a second comes with the
/// second.
pub open spec fn fair_clock(c: Clock) -> bool {
    &&& c.hour <= 23 && c.minute <= 59
    &&& c.second matches Some(s) ==> s <= 60
    &&& c.nanosecond matches Some(n) ==> n <= 999_999_999 && c.second is Some
}

/// Whether a date has a day or a time, and a time zone only with both.
pub open spec fn fair_moment(m: Moment) -> bool {
    &&& m.date is Some || m.time is Some
    &&& m.date matches Some(d) ==> fair_day(d)
    &&& m.time matches Some(c) ==> fair_clock(c)
    &&& m.offset is Some ==> m.date is Some && m.time is Some
    &&& m.offset matches Some(Zone::Minutes(n)) ==> -1440 < n < 1440
}

/// Whether a value consists of strings, integers, booleans and dates, in arrays and
/// tables that are nested no deeper than `depth`.
pub open spec fn simple_node(n: Node, depth: nat) -> bool
    decreases depth,
{
    match n {
        Node::Text(_) => true,
        Node::Int(_) => true,
        Node::Bool(_) => true,
        Node::Date(m) => fair_moment(m),
        Node::List(l) => depth > 0 && forall|i: int|
            0 <= i < l.len() ==> simple_node(#[trigger] l[i], (depth - 1) as nat),
        Node::Table(t) => depth > 0 && forall|i: int|
            0 <= i < t.len() ==> simple_key((#[trigger] t[i]).0) && simple_node(
                t[i].1,
                (depth - 1) as nat,
            ),
        Node::Other(_) => false,
    }
}

/// Whether a table has such values, and keys that are not kept.
pub open spec fn simple_table(t: Entries, depth: nat) -> bool {
    forall|i: int| 0 <= i < t.len() ==> simple_key((#[trigger] t[i]).0) && simple_node(
        t[i].1,
        depth,
    )
}

/// Whether a document consists of strings, integers, booleans and dates, in arrays and
/// tables that are not nested too deep.
pub open spec fn simple_document(doc: Entries) -> bool {
    simple_table(doc, 16)
}

// ---------------------------------------------------------------------------
// The values of the `toml` crate.
// ---------------------------------------------------------------------------

/// A value of the `toml` crate, opaque but for [`node_of`].
#[verifier::external_type_specification]
#[verifier::external_body]
pub struct ExTomlValue(toml::Value);

/// A date of the `toml` crate, opaque but for [`date_of`].
#[verifier::external_type_specification]
#[verifier::external_body]
pub struct ExTomlDatetime(toml::value::Datetime);

/// What a date of the `toml` crate holds.
pub uninterp spec fn date_of(d: toml::value::Datetime) -> Moment;

/// What a value of the `toml` crate holds.
pub uninterp spec fn node_of(v: toml::Value) -> Node;

/// What the `toml` crate makes of a text: the entries of the document, or the
/// message of the error.
pub uninterp spec fn toml_parsed(text: Seq<char>) -> Result<Seq<(Seq<char>, Node)>, Seq<char>>;

/// The text that the `toml` crate prints for a document, if it prints one.
pub uninterp spec fn toml_printed(entries: Seq<(Seq<char>, Node)>) -> Option<Seq<char>>;

/// Whether there is a text, and it reads as the given document.
pub open spec fn reads_as(text: Option<Seq<char>>, entries: Entries) -> bool {
    text matches Some(s) && toml_parsed(s) == Ok::<Entries, Seq<char>>(entries)
}

/// Whether a text is printed for a document, and reads as that document, which
/// [`write_document`] promises of documents of plain values.
pub open spec fn prints_well(doc: Entries) -> bool {
    reads_as(toml_printed(doc), doc)
}

/// What a list of keys and values of the `toml` crate holds.
pub open spec fn nodes_of(entries: Seq<(String, toml::Value)>) -> Entries {
    Seq::new(entries.len(), |i: int| (entries[i].0@, node_of(entries[i].1)))
}

/// The outermost layer of a value of the `toml` crate.
pub enum Layer {
    /// A string.
    Text(String),
    /// An array.
    List(Vec<toml::Value>),
    /// A table, in the order of its keys.
    Table(Vec<(String, toml::Value)>),
    /// An integer.
    Int(i64),
    /// A boolean.
    Bool(bool),
    /// A date.
    Date(toml::value::Datetime),
    /// Anything else.
    Other(toml::Value),
}

/// What a layer and the values below it hold.
pub open spec fn layer_node(l: Layer) -> Node {
    match l {
        Layer::Text(s) => Node::Text(s@),
        Layer::List(v) => Node::List(Seq::new(v@.len(), |i: int| node_of(v@[i]))),
        Layer::Table(v) => Node::Table(nodes_of(v@)),
        Layer::Int(i) => Node::Int(i),
        Layer::Bool(b) => Node::Bool(b),
        Layer::Date(d) => Node::Date(date_of(d)),
        Layer::Other(v) => Node::Other(v),
    }
}

/// Takes a `toml::value::Datetime` apart: its fields, and those of the date, the time
/// and the offset in it, are moved one by one.
#[verifier::external_body]
fn open_date(d: toml::value::Datetime) -> (r: Moment)
    ensures
        r == date_of(d),
{
    Moment {
        date: match d.date {
            Some(x) => Some(Day { year: x.year, month: x.month, day: x.day }),
            None => None,
        },
        time: match d.time {
            Some(x) => Some(Clock { hour: x.hour, minute: x.minute, second: x.second, nanosecond: x.nanosecond }),
            None => None,
        },
        offset: match d.offset {
            Some(toml::value::Offset::Z) => Some(Zone::Zulu),
            Some(toml::value::Offset::Custom { minutes }) => Some(Zone::Minutes(minutes)),
            None => None,
        },
    }
}

/// Puts a `toml::value::Datetime` together, field by field.
#[verifier::external_body]
fn close_date(m: Moment) -> (r: toml::value::Datetime)
    ensures
        date_of(r) == m,
{
    toml::value::Datetime {
        date: match m.date {
            Some(x) => Some(toml::value::Date { year: x.year, month: x.month, day: x.day }),
            None => None,
        },
        time: match m.time {
            Some(Clock { hour, minute, second, nanosecond }) => Some(toml::value::Time { hour, minute, second, nanosecond }),
            None => None,
        },
        offset: match m.offset {
            Some(Zone::Zulu) => Some(toml::value::Offset::Z),
            Some(Zone::Minutes(minutes)) => Some(toml::value::Offset::Custom { minutes }),
            None => None,
        },
    }
}

/// Tells the variants of `toml::Value` apart: a string, an array, a table, an
/// integer, a boolean and a date are handed out as such, a float as the value itself.
/// The entries of a table come out in the order of its keys, which are all different,
/// since `toml::Table` is an ordered map.
#[verifier::external_body]
fn open_value(v: toml::Value) -> (r: Layer)
    ensures
        layer_node(r) == node_of(v),
        r matches Layer::Table(t) ==> keys_ordered(nodes_of(t@)),
        r matches Layer::Other(o) ==> o == v,
{
    match v {
        toml::Value::String(s) => Layer::Text(s),
        toml::Value::Array(a) => Layer::List(a),
        toml::Value::Table(t) => Layer::Table(t.into_iter().collect()),
        toml::Value::Integer(i) => Layer::Int(i),
        toml::Value::Boolean(b) => Layer::Bool(b),
        toml::Value::Datetime(d) => Layer::Date(d),
        other => Layer::Other(other),
    }
}

/// Puts a value of the `toml` crate together: the variant of `toml::Value` that
/// the layer names. Collecting entries whose keys are all different and in
/// order into a `toml::Table` keeps every one of them and their order. A value
/// that is handed over as it is must be a float.
#[verifier::external_body]
fn close_value(l: Layer) -> (r: toml::Value)
    requires
        l matches Layer::Table(t) ==> keys_ordered(nodes_of(t@)),
        l matches Layer::Other(v) ==> node_of(v) == Node::Other(v),
    ensures
        node_of(r) == layer_node(l),
{
    match l {
        Layer::Text(s) => toml::Value::String(s),
        Layer::List(a) => toml::Value::Array(a),
        Layer::Table(t) => toml::Value::Table(t.into_iter().collect()),
        Layer::Int(i) => toml::Value::Integer(i),
        Layer::Bool(b) => toml::Value::Boolean(b),
        Layer::Date(d) => toml::Value::Datetime(d),
        Layer::Other(v) => v,
    }
}

/// Reads a document with `<toml::Table as FromStr>::from_str`. What comes out,
/// the entries in the order of their keys or the text of the error, is
/// [`toml_parsed`] of the text.
#[verifier::external_body]
fn parse_entries(text: &str) -> (r: Result<Vec<(String, toml::Value)>, String>)
    ensures
        match r {
            Ok(entries) => toml_parsed(text@) == Ok::<Entries, Seq<char>>(nodes_of(entries@))
                && keys_ordered(nodes_of(entries@)),
            Err(e) => toml_parsed(text@) == Err::<Entries, Seq<char>>(e@),
        },
{
    match text.parse::<toml::Table>() {
        Ok(table) => Ok(table.into_iter().collect()),
        Err(e) => Err(e.to_string()),
    }
}

/// Prints a document with `toml::to_string`. What comes out is [`toml_printed`]
/// of the entries. A document of strings, integers, booleans and dates that are in the
/// calendar, in arrays and tables that are nested no deeper than the parser goes, is
/// always printed, with each string in quotes that suit it and escaped as need be, and
/// each date as RFC 3339 has it, and reading that text gives the entries back. Nothing is
/// said of what reading the text of a document with a float in it gives, nor of one with a
/// key that the `toml` crate keeps for its dates.
#[verifier::external_body]
fn print_entries(entries: Vec<(String, toml::Value)>) -> (r: Option<String>)
    requires
        keys_ordered(nodes_of(entries@)),
    ensures
        match r {
            Some(s) => toml_printed(nodes_of(entries@)) == Some(s@),
            None => toml_printed(nodes_of(entries@)) is None,
        },
        simple_document(nodes_of(entries@)) ==> reads_as(maybe(r), nodes_of(entries@)),
{
    let table: toml::Table = entries.into_iter().collect();
    toml::to_string(&table).ok()
}

// ---------------------------------------------------------------------------
// Plain values.
// ---------------------------------------------------------------------------

/// A TOML value, as plain strings and vectors.
pub enum Item {
    /// A string.
    Text(String),
    /// An array.
    List(Vec<Item>),
    /// A table, in the order of its keys.
    Table(Vec<(String, Item)>),
    /// An integer.
    Int(i64),
    /// A boolean.
    Bool(bool),
    /// A date.
    Date(Moment),
    /// A float, kept as it was read.
    Other(toml::Value),
}

impl Item {
    /// What the item holds.
    pub open spec fn node(self) -> Node
        decreases self,
    {
        match self {
            Item::Text(s) => Node::Text(s@),
            Item::List(v) => Node::List(
                Seq::new(
                    v@.len(),
                    |i: int| if 0 <= i < v@.len() { v@[i].node() } else { arbitrary() },
                ),
            ),
            Item::Table(v) => Node::Table(
                Seq::new(
                    v@.len(),
                    |i: int|
                        if 0 <= i < v@.len() { (v@[i].0@, v@[i].1.node()) } else { arbitrary() },
                ),
            ),
            Item::Int(i) => Node::Int(i),
            Item::Bool(b) => Node::Bool(b),
            Item::Date(m) => Node::Date(m),
            Item::Other(v) => Node::Other(v),
        }
    }
}

impl View for Item {
    type V = Node;

    open spec fn view(&self) -> Node {
        self.node()
    }
}

/// What the elements of an array hold.
pub open spec fn list_nodes(items: Seq<Item>) -> Seq<Node> {
    Seq::new(items.len(), |i: int| items[i]@)
}

/// What the entries of a table hold.
pub open spec fn table_nodes(items: Seq<(String, Item)>) -> Entries {
    Seq::new(items.len(), |i: int| (items[i].0@, items[i].1@))
}

/// An array holds its elements, a table its entries.
pub broadcast proof fn lemma_item_view(item: Item)
    ensures
        item matches Item::List(v) ==> #[trigger] item@ == Node::List(list_nodes(v@)),
        item matches Item::Table(v) ==> item@ == Node::Table(table_nodes(v@)),
{
    match item {
        Item::List(v) => {
            assert(item@->List_0 =~= list_nodes(v@));
        },
        Item::Table(v) => {
            assert(item@->Table_0 =~= table_nodes(v@));
        },
        _ => {},
    }
}

/// The plain form of a value of the `toml` crate.
fn plain(v: toml::Value) -> (r: Item)
    ensures
        r@ == node_of(v),
        node_ordered(r@),
    decreases node_of(v),
{
    broadcast use lemma_item_view;

    let layer = open_value(v);
    match layer {
        Layer::Text(s) => Item::Text(s),
        Layer::Int(i) => Item::Int(i),
        Layer::Bool(b) => Item::Bool(b),
        Layer::Date(d) => Item::Date(open_date(d)),
        Layer::Other(o) => Item::Other(o),
        Layer::List(items) => {
            let ghost all = items@;
            let mut out: Vec<Item> = Vec::new();
            for item in it: items
                invariant
                    it.seq() == all,
                    node_of(v) == Node::List(Seq::new(all.len(), |i: int| node_of(all[i]))),
                    out@.len() == it.index(),
                    forall|i: int|
                        0 <= i < out@.len() ==> (#[trigger] out@[i])@ == node_of(all[i])
                            && node_ordered(out@[i]@),
            {
                assert(decreases_to!(node_of(v) => node_of(v)->List_0));
                assert(node_of(v)->List_0[it.index()] == node_of(item));
                out.push(plain(item));
            }
            assert(list_nodes(out@) =~= node_of(v)->List_0);
            Item::List(out)
        },
        Layer::Table(items) => {
            let ghost all = items@;
            let mut out: Vec<(String, Item)> = Vec::new();
            for item in it: items
                invariant
                    it.seq() == all,
                    node_of(v) == Node::Table(nodes_of(all)),
                    out@.len() == it.index(),
                    forall|i: int|
                        0 <= i < out@.len() ==> (#[trigger] out@[i]).0@ == all[i].0@
                            && out@[i].1@ == node_of(all[i].1) && node_ordered(out@[i].1@),
            {
                assert(node_of(v)->Table_0[it.index()].1 == node_of(item.1));
                out.push((item.0, plain(item.1)));
            }
            assert(table_nodes(out@) =~= node_of(v)->Table_0);
            Item::Table(out)
        },
    }
}

/// The value of the `toml` crate that a plain value stands for.
fn raw(item: Item) -> (r: toml::Value)
    requires
        node_ordered(item@),
    ensures
        node_of(r) == item@,
    decreases item@,
{
    proof {
        lemma_item_view(item);
    }
    let ghost whole = item@;
    match item {
        Item::Text(s) => close_value(Layer::Text(s)),
        Item::Int(i) => close_value(Layer::Int(i)),
        Item::Bool(b) => close_value(Layer::Bool(b)),
        Item::Date(m) => close_value(Layer::Date(close_date(m))),
        Item::Other(o) => close_value(Layer::Other(o)),
        Item::List(items) => {
            let ghost all = items@;
            let ghost nodes = list_nodes(all);
            let ghost list = Node::List(nodes);
            assert(node_ordered(list));
            assert forall|i: int| 0 <= i < all.len() implies node_ordered((#[trigger] all[i])@) by {
                assert(node_ordered(list->List_0[i]));
            }
            let mut out: Vec<toml::Value> = Vec::new();
            for x in it: items
                invariant
                    it.seq() == all,
                    item@ == whole,
                    whole == Node::List(list_nodes(all)),
                    forall|i: int| 0 <= i < all.len() ==> node_ordered((#[trigger] all[i])@),
                    out@.len() == it.index(),
                    forall|i: int| 0 <= i < out@.len() ==> node_of(#[trigger] out@[i]) == all[i]@,
            {
                assert(whole->List_0[it.index()] == x@);
                out.push(raw(x));
            }
            let r = close_value(Layer::List(out));
            assert(node_of(r)->List_0 =~= nodes);
            r
        },
        Item::Table(items) => {
            let ghost all = items@;
            let ghost nodes = table_nodes(all);
            assert forall|i: int| 0 <= i < all.len() implies node_ordered(
                (#[trigger] all[i]).1@,
            ) by {
                assert(node_ordered(nodes[i].1));
            }
            let mut out: Vec<(String, toml::Value)> = Vec::new();
            for x in it: items
                invariant
                    it.seq() == all,
                    item@ == whole,
                    whole == Node::Table(table_nodes(all)),
                    forall|i: int| 0 <= i < all.len() ==> node_ordered((#[trigger] all[i]).1@),
                    out@.len() == it.index(),
                    forall|i: int|
                        0 <= i < out@.len() ==> (#[trigger] out@[i]).0@ == all[i].0@ && node_of(
                            out@[i].1,
                        ) == all[i].1@,
            {
                assert(whole->Table_0[it.index()].1 == x.1@);
                out.push((x.0, raw(x.1)));
            }
            assert(nodes_of(out@) =~= nodes);
            close_value(Layer::Table(out))
        },
    }
}

/// A TOML document: its keys and their values, in the order of the keys.
pub type Document = Vec<(String, Item)>;

/// Reads a TOML document, or says what is wrong with its text.
pub fn read_document(text: &str) -> (r: Result<Document, String>)
    ensures
        match r {
            Ok(doc) => toml_parsed(text@) == Ok::<Entries, Seq<char>>(table_nodes(doc@))
                && entries_ordered(table_nodes(doc@)),
            Err(e) => toml_parsed(text@) == Err::<Entries, Seq<char>>(e@),
        },
{
    match parse_entries(text) {
        Err(e) => Err(e),
        Ok(items) => {
            let ghost all = items@;
            let mut out: Document = Vec::new();
            for item in it: items
                invariant
                    it.seq() == all,
                    out@.len() == it.index(),
                    forall|i: int|
                        0 <= i < out@.len() ==> (#[trigger] out@[i]).0@ == all[i].0@
                            && out@[i].1@ == node_of(all[i].1) && node_ordered(out@[i].1@),
            {
                out.push((item.0, plain(item.1)));
            }
            assert(table_nodes(out@) =~= nodes_of(all));
            Ok(out)
        },
    }
}

/// The document that a file with the given text, or no file, stands for: an empty
/// one when there is none or it does not parse.
pub open spec fn entries_of(text: Option<Seq<char>>) -> Entries {
    match text {
        Some(t) => match toml_parsed(t) {
            Ok(doc) => doc,
            Err(_) => seq![],
        },
        None => seq![],
    }
}

/// The document that a file with the given text, or no file, stands for.
pub fn read_or_empty(text: &Option<String>) -> (r: Document)
    ensures
        table_nodes(r@) == entries_of(maybe(*text)),
        entries_ordered(table_nodes(r@)),
{
    let empty: Document = Vec::new();
    assert(table_nodes(empty@) =~= seq![]);
    assert(entries_ordered(table_nodes(empty@)));
    match text {
        Some(t) => match read_document(t.as_str()) {
            Ok(doc) => doc,
            Err(_) => empty,
        },
        None => empty,
    }
}

/// Prints a TOML document, when the `toml` crate can. A document of plain values is
/// printed, and read back as it was.
pub fn write_document(doc: Document) -> (r: Option<String>)
    requires
        entries_ordered(table_nodes(doc@)),
    ensures
        match r {
            Some(s) => toml_printed(table_nodes(doc@)) == Some(s@),
            None => toml_printed(table_nodes(doc@)) is None,
        },
        simple_document(table_nodes(doc@)) ==> reads_as(maybe(r), table_nodes(doc@)),
{
    let ghost all = doc@;
    let ghost nodes = table_nodes(all);
    assert forall|i: int| 0 <= i < all.len() implies node_ordered((#[trigger] all[i]).1@) by {
        assert(node_ordered(nodes[i].1));
    }
    let mut out: Vec<(String, toml::Value)> = Vec::new();
    for x in it: doc
        invariant
            it.seq() == all,
            forall|i: int| 0 <= i < all.len() ==> node_ordered((#[trigger] all[i]).1@),
            out@.len() == it.index(),
            forall|i: int|
                0 <= i < out@.len() ==> (#[trigger] out@[i]).0@ == all[i].0@ && node_of(out@[i].1)
                    == all[i].1@,
    {
        assert(x == all[it.index()]);
        out.push((x.0, raw(x.1)));
    }
    assert(nodes_of(out@) =~= nodes);
    print_entries(out)
}

/// Where `key` stands in a table, or the length of the table.
pub fn position(table: &Vec<(String, Item)>, key: &str) -> (r: usize)
    ensures
        r <= table@.len(),
        forall|i: int| 0 <= i < r ==> (#[trigger] table@[i]).0@ != key@,
        r < table@.len() ==> table@[r as int].0@ == key@,
        entry(table_nodes(table@), key@) == (if r < table@.len() {
            Some(table@[r as int].1@)
        } else {
            None
        }),
{
    let ghost nodes = table_nodes(table@);
    let mut i: usize = 0;
    assert(nodes.skip(0) == nodes);
    while i < table.len()
        invariant
            i <= table@.len(),
            nodes == table_nodes(table@),
            forall|j: int| 0 <= j < i ==> (#[trigger] table@[j]).0@ != key@,
            entry(nodes, key@) == entry(nodes.skip(i as int), key@),
        decreases table@.len() - i,
    {
        if same(table[i].0.as_str(), key) {
            return i;
        }
        assert(nodes.skip(i as int).drop_first() == nodes.skip(i + 1));
        i = i + 1;
    }
    i
}

/// The value that `key` has in a table.
pub fn get<'a>(table: &'a Vec<(String, Item)>, key: &str) -> (r: Option<&'a Item>)
    ensures
        match r {
            Some(item) => entry(table_nodes(table@), key@) == Some(item@),
            None => entry(table_nodes(table@), key@) is None,
        },
{
    let i = position(table, key);
    if i < table.len() {
        Some(&table[i].1)
    } else {
        None
    }
}

/// The string that `key` has in a table.
pub fn get_text<'a>(table: &'a Vec<(String, Item)>, key: &str) -> (r: Option<&'a String>)
    ensures
        match r {
            Some(s) => node_text(entry(table_nodes(table@), key@)) == Some(s@),
            None => node_text(entry(table_nodes(table@), key@)) is None,
        },
{
    match get(table, key) {
        Some(Item::Text(s)) => Some(s),
        _ => None,
    }
}

/// The elements of the array that `key` has in a table.
pub fn get_list<'a>(table: &'a Vec<(String, Item)>, key: &str) -> (r: Option<&'a Vec<Item>>)
    ensures
        match r {
            Some(v) => node_list(entry(table_nodes(table@), key@)) == Some(list_nodes(v@)),
            None => node_list(entry(table_nodes(table@), key@)) is None,
        },
{
    broadcast use lemma_item_view;

    match get(table, key) {
        Some(item) => match item {
            Item::List(v) => Some(v),
            _ => None,
        },
        None => None,
    }
}

/// The entries of the table that `key` has in a table.
pub fn get_table<'a>(table: &'a Vec<(String, Item)>, key: &str) -> (r: Option<
    &'a Vec<(String, Item)>,
>)
    ensures
        match r {
            Some(v) => node_table(entry(table_nodes(table@), key@)) == Some(table_nodes(v@)),
            None => node_table(entry(table_nodes(table@), key@)) is None,
        },
{
    broadcast use lemma_item_view;

    match get(table, key) {
        Some(item) => match item {
            Item::Table(v) => Some(v),
            _ => None,
        },
        None => None,
    }
}

// ---------------------------------------------------------------------------
// Changing a table.
// ---------------------------------------------------------------------------

/// `entries` with `v` under `key`, in its place among the keys.
pub open spec fn with_entry(entries: Entries, key: Seq<char>, v: Node) -> Entries
    decreases entries.len(),
{
    if entries.len() == 0 {
        seq![(key, v)]
    } else if entries[0].0 == key {
        seq![(key, v)] + entries.drop_first()
    } else if precedes(Order::Text, key, entries[0].0) {
        seq![(key, v)] + entries
    } else {
        seq![entries[0]] + with_entry(entries.drop_first(), key, v)
    }
}

/// `entries` without `key`.
pub open spec fn without_entry(entries: Entries, key: Seq<char>) -> Entries
    decreases entries.len(),
{
    if entries.len() == 0 {
        entries
    } else if entries[0].0 == key {
        entries.drop_first()
    } else {
        seq![entries[0]] + without_entry(entries.drop_first(), key)
    }
}

/// Whether every key of `entries` comes after `key`.
pub open spec fn all_after(entries: Entries, key: Seq<char>) -> bool {
    forall|i: int| 0 <= i < entries.len() ==> precedes(Order::Text, key, (#[trigger] entries[i]).0)
}

/// Where every key comes after `key`, it is not there, and would come first.
proof fn lemma_all_after(entries: Entries, key: Seq<char>, v: Node)
    requires
        all_after(entries, key),
    ensures
        entry(entries, key) is None,
        with_entry(entries, key, v) == seq![(key, v)] + entries,
        without_entry(entries, key) == entries,
    decreases entries.len(),
{
    if entries.len() == 0 {
        assert(seq![(key, v)] + entries =~= seq![(key, v)]);
    } else {
        lemma_irreflexive(Order::Text, key);
        assert(precedes(Order::Text, key, entries[0].0));
        let rest = entries.drop_first();
        assert forall|i: int| 0 <= i < rest.len() implies precedes(
            Order::Text,
            key,
            (#[trigger] rest[i]).0,
        ) by {
            assert(rest[i] == entries[i + 1]);
        }
        lemma_all_after(rest, key, v);
        assert(seq![entries[0]] + rest =~= entries);
    }
}

/// In a table in order, the first key comes before all others.
proof fn lemma_first_key(entries: Entries)
    requires
        keys_ordered(entries),
        entries.len() > 0,
    ensures
        all_after(entries.drop_first(), entries[0].0),
        keys_ordered(entries.drop_first()),
{
    let rest = entries.drop_first();
    assert forall|i: int| 0 <= i < rest.len() implies precedes(
        Order::Text,
        entries[0].0,
        (#[trigger] rest[i]).0,
    ) by {
        assert(rest[i] == entries[i + 1]);
    }
    assert forall|i: int, j: int| 0 <= i < j < rest.len() implies precedes(
        Order::Text,
        #[trigger] rest[i].0,
        #[trigger] rest[j].0,
    ) by {
        assert(rest[i] == entries[i + 1]);
        assert(rest[j] == entries[j + 1]);
    }
}

/// What is taken out of a table and put back replaces what was there.
pub proof fn lemma_replace_entry(entries: Entries, key: Seq<char>, v: Node)
    requires
        keys_ordered(entries),
    ensures
        with_entry(without_entry(entries, key), key, v) == with_entry(entries, key, v),
    decreases entries.len(),
{
    if entries.len() > 0 {
        let rest = entries.drop_first();
        lemma_first_key(entries);
        if entries[0].0 == key {
            lemma_all_after(rest, key, v);
        } else if precedes(Order::Text, key, entries[0].0) {
            assert forall|i: int| 0 <= i < entries.len() implies precedes(
                Order::Text,
                key,
                (#[trigger] entries[i]).0,
            ) by {
                if i > 0 {
                    assert(rest[i - 1] == entries[i]);
                    lemma_transitive(Order::Text, key, entries[0].0, entries[i].0);
                }
            }
            lemma_all_after(entries, key, v);
        } else {
            lemma_replace_entry(rest, key, v);
            let out = seq![entries[0]] + without_entry(rest, key);
            assert(out.drop_first() =~= without_entry(rest, key));
        }
    }
}

/// After a key is put into a table it has the new value, every other key has
/// the value it had, and the keys are still in order.
pub proof fn lemma_with_entry(entries: Entries, key: Seq<char>, v: Node)
    requires
        keys_ordered(entries),
    ensures
        keys_ordered(with_entry(entries, key, v)),
        entry(with_entry(entries, key, v), key) == Some(v),
        forall|k: Seq<char>|
            k != key ==> #[trigger] entry(with_entry(entries, key, v), k) == entry(entries, k),
        forall|i: int|
            0 <= i < with_entry(entries, key, v).len() ==> (#[trigger] with_entry(
                entries,
                key,
                v,
            )[i]) == (key, v) || entries.contains(with_entry(entries, key, v)[i]),
    decreases entries.len(),
{
    let r = with_entry(entries, key, v);
    if entries.len() == 0 {
        assert(r.drop_first() =~= entries);
    } else {
        let rest = entries.drop_first();
        lemma_first_key(entries);
        if entries[0].0 == key {
            assert(r.drop_first() =~= rest);
            assert forall|i: int, j: int| 0 <= i < j < r.len() implies precedes(
                Order::Text,
                #[trigger] r[i].0,
                #[trigger] r[j].0,
            ) by {
                assert(r[j] == entries[j]);
                if i > 0 {
                    assert(r[i] == entries[i]);
                }
            }
            assert forall|i: int| 0 <= i < r.len() implies (#[trigger] r[i]) == (key, v)
                || entries.contains(r[i]) by {
                if i > 0 {
                    assert(r[i] == entries[i]);
                }
            }
            assert forall|k: Seq<char>| k != key implies #[trigger] entry(r, k) == entry(
                entries,
                k,
            ) by {
                assert(r[0].0 != k);
            }
        } else if precedes(Order::Text, key, entries[0].0) {
            assert(r.drop_first() =~= entries);
            assert forall|i: int, j: int| 0 <= i < j < r.len() implies precedes(
                Order::Text,
                #[trigger] r[i].0,
                #[trigger] r[j].0,
            ) by {
                assert(r[j] == entries[j - 1]);
                if i > 0 {
                    assert(r[i] == entries[i - 1]);
                } else if j > 1 {
                    assert(rest[j - 2] == entries[j - 1]);
                    lemma_transitive(Order::Text, key, entries[0].0, entries[j - 1].0);
                }
            }
            assert forall|i: int| 0 <= i < r.len() implies (#[trigger] r[i]) == (key, v)
                || entries.contains(r[i]) by {
                if i > 0 {
                    assert(r[i] == entries[i - 1]);
                }
            }
            assert forall|k: Seq<char>| k != key implies #[trigger] entry(r, k) == entry(
                entries,
                k,
            ) by {
                assert(r[0].0 != k);
            }
        } else {
            let tail = with_entry(rest, key, v);
            lemma_with_entry(rest, key, v);
            lemma_connected(Order::Text, key, entries[0].0);
            assert(r.drop_first() =~= tail);
            assert forall|i: int| 0 <= i < tail.len() implies (#[trigger] tail[i]) == (key, v)
                || entries.contains(tail[i]) by {
                if tail[i] != (key, v) {
                    assert(rest.contains(tail[i]));
                    let k = choose|k: int| 0 <= k < rest.len() && rest[k] == tail[i];
                    assert(entries[k + 1] == tail[i]);
                }
            }
            assert forall|i: int| 0 <= i < r.len() implies (#[trigger] r[i]) == (key, v)
                || entries.contains(r[i]) by {
                if i > 0 {
                    assert(r[i] == tail[i - 1]);
                } else {
                    assert(r[0] == entries[0]);
                }
            }
            assert forall|i: int, j: int| 0 <= i < j < r.len() implies precedes(
                Order::Text,
                #[trigger] r[i].0,
                #[trigger] r[j].0,
            ) by {
                assert(r[j] == tail[j - 1]);
                if i > 0 {
                    assert(r[i] == tail[i - 1]);
                } else if tail[j - 1] != (key, v) {
                    assert(rest.contains(tail[j - 1]));
                    let k = choose|k: int| 0 <= k < rest.len() && rest[k] == tail[j - 1];
                    assert(precedes(Order::Text, entries[0].0, rest[k].0));
                }
            }
            assert forall|k: Seq<char>| k != key implies #[trigger] entry(r, k) == entry(
                entries,
                k,
            ) by {
                assert(entry(tail, k) == entry(rest, k));
                assert(r[0] == entries[0]);
            }
            assert(r[0].0 != key);
        }
    }
}

/// Taking a key out leaves the other entries, in order.
proof fn lemma_without_entry(entries: Entries, key: Seq<char>)
    ensures
        keys_ordered(entries) ==> keys_ordered(without_entry(entries, key)),
        forall|i: int|
            0 <= i < without_entry(entries, key).len() ==> entries.contains(
                #[trigger] without_entry(entries, key)[i],
            ),
    decreases entries.len(),
{
    let r = without_entry(entries, key);
    if entries.len() > 0 {
        let rest = entries.drop_first();
        if keys_ordered(entries) {
            lemma_first_key(entries);
        }
        if entries[0].0 == key {
            assert forall|i: int| 0 <= i < r.len() implies entries.contains(#[trigger] r[i]) by {
                assert(r[i] == entries[i + 1]);
            }
        } else {
            lemma_without_entry(rest, key);
            let tail = without_entry(rest, key);
            assert forall|i: int| 0 <= i < tail.len() implies rest.contains(
                #[trigger] tail[i],
            ) && entries.contains(tail[i]) by {
                let k = choose|k: int| 0 <= k < rest.len() && rest[k] == tail[i];
                assert(entries[k + 1] == tail[i]);
            }
            assert forall|i: int| 0 <= i < r.len() implies entries.contains(#[trigger] r[i]) by {
                if i > 0 {
                    assert(r[i] == tail[i - 1]);
                } else {
                    assert(r[0] == entries[0]);
                }
            }
            if keys_ordered(entries) {
                assert forall|i: int, j: int| 0 <= i < j < r.len() implies precedes(
                    Order::Text,
                    #[trigger] r[i].0,
                    #[trigger] r[j].0,
                ) by {
                    assert(r[j] == tail[j - 1]);
                    if i > 0 {
                        assert(r[i] == tail[i - 1]);
                    } else {
                        assert(rest.contains(tail[j - 1]));
                        let k = choose|k: int| 0 <= k < rest.len() && rest[k] == tail[j - 1];
                        assert(precedes(Order::Text, entries[0].0, rest[k].0));
                    }
                }
            }
        }
    }
}

/// Takes `key` and its value out of a table.
pub fn take_entry(table: &mut Vec<(String, Item)>, key: &str) -> (r: Option<Item>)
    ensures
        table_nodes(final(table)@) == without_entry(table_nodes(old(table)@), key@),
        match r {
            Some(item) => entry(table_nodes(old(table)@), key@) == Some(item@),
            None => entry(table_nodes(old(table)@), key@) is None,
        },
        entries_ordered(table_nodes(old(table)@)) ==> entries_ordered(
            table_nodes(final(table)@),
        ) && (r matches Some(item) ==> node_ordered(item@)),
{
    let ghost nodes = table_nodes(table@);
    let i = position(table, key);
    proof {
        lemma_without_at(nodes, key@, i as int);
        lemma_without_entry(nodes, key@);
        if entries_ordered(nodes) {
            assert forall|j: int| 0 <= j < without_entry(nodes, key@).len() implies node_ordered(
                (#[trigger] without_entry(nodes, key@)[j]).1,
            ) by {
                let k = choose|k: int|
                    0 <= k < nodes.len() && nodes[k] == without_entry(nodes, key@)[j];
                assert(node_ordered(nodes[k].1));
            }
            if i < nodes.len() {
                assert(node_ordered(nodes[i as int].1));
            }
        }
    }
    if i < table.len() {
        let pair = table.remove(i);
        assert(table_nodes(table@) =~= nodes.remove(i as int));
        Some(pair.1)
    } else {
        None
    }
}

/// Taking a key out is removing the one place where it stands.
proof fn lemma_without_at(entries: Entries, key: Seq<char>, i: int)
    requires
        0 <= i <= entries.len(),
        forall|j: int| 0 <= j < i ==> (#[trigger] entries[j]).0 != key,
        i < entries.len() ==> entries[i].0 == key,
    ensures
        without_entry(entries, key) == (if i < entries.len() {
            entries.remove(i)
        } else {
            entries
        }),
    decreases entries.len(),
{
    if entries.len() > 0 {
        if i == 0 {
            assert(entries.remove(0) =~= entries.drop_first());
        } else {
            let rest = entries.drop_first();
            assert forall|j: int| 0 <= j < i - 1 implies (#[trigger] rest[j]).0 != key by {
                assert(rest[j] == entries[j + 1]);
            }
            assert(entries[0].0 != key);
            lemma_without_at(rest, key, i - 1);
            if i < entries.len() {
                assert(seq![entries[0]] + rest.remove(i - 1) =~= entries.remove(i));
            } else {
                assert(seq![entries[0]] + rest =~= entries);
            }
        }
    }
}

/// Puts a value under `key` into a table, in its place.
pub fn put_entry(table: &mut Vec<(String, Item)>, key: &str, item: Item)
    ensures
        table_nodes(final(table)@) == with_entry(table_nodes(old(table)@), key@, item@),
        entries_ordered(table_nodes(old(table)@)) && node_ordered(item@) ==> entries_ordered(
            table_nodes(final(table)@),
        ),
{
    let ghost all = table_nodes(table@);
    proof {
        if entries_ordered(all) && node_ordered(item@) {
            lemma_with_entry(all, key@, item@);
            let r = with_entry(all, key@, item@);
            assert forall|j: int| 0 <= j < r.len() implies node_ordered((#[trigger] r[j]).1) by {
                if r[j] != (key@, item@) {
                    assert(all.contains(r[j]));
                    let k = choose|k: int| 0 <= k < all.len() && all[k] == r[j];
                    assert(node_ordered(all[k].1));
                }
            }
        }
    }
    let mut k: usize = 0;
    assert(all.skip(0) == all);
    assert(all.take(0) + with_entry(all, key@, item@) =~= with_entry(all, key@, item@));
    while k < table.len() && !same(table[k].0.as_str(), key) && !comes_before(
        Order::Text,
        key,
        table[k].0.as_str(),
    )
        invariant
            k <= table@.len(),
            table@ == old(table)@,
            all == table_nodes(table@),
            with_entry(all, key@, item@) == all.take(k as int) + with_entry(
                all.skip(k as int),
                key@,
                item@,
            ),
        decreases table@.len() - k,
    {
        let ghost rest = all.skip(k as int);
        assert(rest.drop_first() == all.skip(k + 1));
        assert(all.take(k + 1) =~= all.take(k as int).push(rest[0]));
        assert(all.take(k as int) + (seq![rest[0]] + with_entry(rest.drop_first(), key@, item@))
            =~= all.take(k + 1) + with_entry(all.skip(k + 1), key@, item@));
        k = k + 1;
    }
    let ghost rest = all.skip(k as int);
    let ghost new = (key@, item@);
    if k < table.len() && same(table[k].0.as_str(), key) {
        let _old = table.remove(k);
        table.insert(k, (key.to_owned(), item));
        assert(table_nodes(table@) =~= all.take(k as int) + (seq![new] + rest.drop_first()));
    } else {
        table.insert(k, (key.to_owned(), item));
        assert(table_nodes(table@) =~= all.take(k as int) + (seq![new] + rest));
        assert(rest.len() == 0 ==> seq![new] + rest =~= seq![new]);
    }
}

/// Looking up a key finds an entry with it.
pub proof fn lemma_entry_found(entries: Entries, key: Seq<char>)
    ensures
        entry(entries, key) matches Some(n) ==> exists|i: int|
            0 <= i < entries.len() && (#[trigger] entries[i]) == (key, n),
    decreases entries.len(),
{
    if entries.len() > 0 {
        if entries[0].0 == key {
            assert(entries[0] == (key, entries[0].1));
        } else {
            lemma_entry_found(entries.drop_first(), key);
            if entry(entries, key) is Some {
                let n = entry(entries, key)->Some_0;
                let i = choose|i: int|
                    0 <= i < entries.drop_first().len() && (#[trigger] entries.drop_first()[i]) == (
                        key,
                        n,
                    );
                assert(entries[i + 1] == (key, n));
            }
        }
    }
}

/// A table of plain values stays one when a plain value is put into it.
pub proof fn lemma_simple_table(t: Entries, key: Seq<char>, v: Node, depth: nat)
    requires
        keys_ordered(t),
        simple_table(t, depth),
        simple_key(key),
        simple_node(v, depth),
    ensures
        simple_table(with_entry(t, key, v), depth),
{
    lemma_with_entry(t, key, v);
    let after = with_entry(t, key, v);
    assert forall|i: int| 0 <= i < after.len() implies simple_key((#[trigger] after[i]).0)
        && simple_node(after[i].1, depth) by {
        if after[i] != (key, v) {
            let k = choose|k: int| 0 <= k < t.len() && t[k] == after[i];
            assert(simple_key(t[k].0));
        }
    }
}

/// Putting a value where it is changes nothing.
pub proof fn lemma_with_same_entry(entries: Entries, key: Seq<char>, v: Node)
    requires
        keys_ordered(entries),
        entry(entries, key) == Some(v),
    ensures
        with_entry(entries, key, v) == entries,
    decreases entries.len(),
{
    if entries[0].0 == key {
        assert(seq![(key, v)] + entries.drop_first() =~= entries);
    } else {
        let rest = entries.drop_first();
        lemma_entry_found(rest, key);
        let i = choose|i: int| 0 <= i < rest.len() && #[trigger] rest[i] == (key, v);
        assert(entries[i + 1].0 == key);
        assert(precedes(Order::Text, entries[0].0, entries[i + 1].0));
        if precedes(Order::Text, key, entries[0].0) {
            lemma_transitive(Order::Text, key, entries[0].0, key);
            lemma_irreflexive(Order::Text, key);
        }
        assert forall|a: int, b: int| 0 <= a < b < rest.len() implies precedes(
            Order::Text,
            #[trigger] rest[a].0,
            #[trigger] rest[b].0,
        ) by {
            assert(rest[a] == entries[a + 1] && rest[b] == entries[b + 1]);
        }
        lemma_with_same_entry(rest, key, v);
        assert(seq![entries[0]] + rest =~= entries);
    }
}

} // verus!
