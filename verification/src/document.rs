//! TOML documents as plain trees of values.

use crate::rows;
use vstd::prelude::*;

verus! {

/// A TOML value. The contents of floats and dates are never looked at, so only
/// their presence is kept.
#[derive(Debug)]
pub enum Toml {
    Text(String),
    Integer(i64),
    Float,
    Boolean(bool),
    Datetime,
    Array(Vec<Toml>),
    Table(Vec<(String, Toml)>),
}

/// The mathematical tree that a [`Toml`] stands for.
pub enum Node {
    Text(Seq<char>),
    Integer(int),
    Float,
    Boolean(bool),
    Datetime,
    Array(Seq<Node>),
    Table(Seq<(Seq<char>, Node)>),
}

impl View for Toml {
    type V = Node;

    open spec fn view(&self) -> Node
        decreases self,
    {
        match self {
            Toml::Text(s) => Node::Text(s@),
            Toml::Integer(n) => Node::Integer(*n as int),
            Toml::Float => Node::Float,
            Toml::Boolean(b) => Node::Boolean(*b),
            Toml::Datetime => Node::Datetime,
            Toml::Array(items) => Node::Array(
                Seq::new(
                    items@.len(),
                    |i: int|
                        if 0 <= i < items@.len() {
                            items@[i].view()
                        } else {
                            arbitrary()
                        },
                ),
            ),
            Toml::Table(entries) => Node::Table(
                Seq::new(
                    entries@.len(),
                    |i: int|
                        if 0 <= i < entries@.len() {
                            (entries@[i].0@, entries@[i].1.view())
                        } else {
                            arbitrary()
                        },
                ),
            ),
        }
    }
}

/// `toml::Value`, whose contents only [`open_toml`] sees.
#[verifier::external_type_specification]
#[verifier::external_body]
pub struct ExTomlValue(toml::Value);

/// What a `toml::Value` holds.
pub uninterp spec fn toml_contents(value: toml::Value) -> Node;

/// What `toml::from_str` makes of a text: the document, or the text of the error.
pub uninterp spec fn toml_document(text: Seq<char>) -> Result<Node, Seq<char>>;

/// One level of a `toml::Value`.
enum Layer {
    Text(String),
    Integer(i64),
    Float,
    Boolean(bool),
    Datetime,
    Array(Vec<toml::Value>),
    Table(Vec<(String, toml::Value)>),
}

/// Opens one level of a `toml::Value`: tells its variants apart and moves their fields out.
/// The entries of a table come in the order in which `toml::Table` hands them out, which is
/// ascending by key.
#[verifier::external_body]
fn open_toml(value: toml::Value) -> (layer: Layer)
    ensures
        match layer {
            Layer::Text(s) => toml_contents(value) == Node::Text(s@),
            Layer::Integer(n) => toml_contents(value) == Node::Integer(n as int),
            Layer::Float => toml_contents(value) == Node::Float,
            Layer::Boolean(b) => toml_contents(value) == Node::Boolean(b),
            Layer::Datetime => toml_contents(value) == Node::Datetime,
            Layer::Array(items) => toml_contents(value) == Node::Array(
                items@.map_values(|v: toml::Value| toml_contents(v)),
            ),
            Layer::Table(entries) => toml_contents(value) == Node::Table(
                entries@.map_values(|e: (String, toml::Value)| (e.0@, toml_contents(e.1))),
            ),
        },
{
    match value {
        toml::Value::String(s) => Layer::Text(s),
        toml::Value::Integer(n) => Layer::Integer(n),
        toml::Value::Float(_) => Layer::Float,
        toml::Value::Boolean(b) => Layer::Boolean(b),
        toml::Value::Datetime(_) => Layer::Datetime,
        toml::Value::Array(items) => Layer::Array(items),
        toml::Value::Table(entries) => Layer::Table(entries.into_iter().collect()),
    }
}

/// Parses a document with `toml::from_str::<toml::Value>` and, where that refuses the text,
/// writes out its error. The outcome is a function of the text alone: it is what
/// [`toml_document`] names.
#[verifier::external_body]
fn toml_from_str(text: &str) -> (result: Result<toml::Value, String>)
    ensures
        match result {
            Ok(value) => toml_document(text@) == Ok::<Node, Seq<char>>(toml_contents(value)),
            Err(message) => toml_document(text@) == Err::<Node, Seq<char>>(message@),
        },
{
    toml::from_str::<toml::Value>(text).map_err(|e| e.to_string())
}

/// Copies a `toml::Value` into a [`Toml`] of the same shape.
fn copy_tree(value: toml::Value) -> (tree: Toml)
    ensures
        tree@ == toml_contents(value),
    decreases toml_contents(value),
{
    let ghost whole = toml_contents(value);
    match open_toml(value) {
        Layer::Text(s) => Toml::Text(s),
        Layer::Integer(n) => Toml::Integer(n),
        Layer::Float => Toml::Float,
        Layer::Boolean(b) => Toml::Boolean(b),
        Layer::Datetime => Toml::Datetime,
        Layer::Array(items) => {
            let ghost given = items@;
            let mut copied: Vec<Toml> = Vec::new();
            for item in it: items
                invariant
                    it.seq() == given,
                    whole == toml_contents(value),
                    whole == Node::Array(given.map_values(|v: toml::Value| toml_contents(v))),
                    copied@.len() == it.index(),
                    forall|j: int|
                        0 <= j < copied@.len() ==> (#[trigger] copied@[j])@ == toml_contents(
                            given[j],
                        ),
            {
                proof {
                    let inner = given.map_values(|v: toml::Value| toml_contents(v));
                    assert(inner[it.index()] == toml_contents(item));
                    assert(decreases_to!(whole => whole->Array_0));
                    assert(decreases_to!(inner => inner[it.index()]));
                }
                copied.push(copy_tree(item));
            }
            let tree = Toml::Array(copied);
            assert(tree@->Array_0 == whole->Array_0);
            tree
        },
        Layer::Table(entries) => {
            let ghost given = entries@;
            let mut copied: Vec<(String, Toml)> = Vec::new();
            for entry in it: entries
                invariant
                    it.seq() == given,
                    whole == toml_contents(value),
                    whole == Node::Table(
                        given.map_values(|e: (String, toml::Value)| (e.0@, toml_contents(e.1))),
                    ),
                    copied@.len() == it.index(),
                    forall|j: int|
                        0 <= j < copied@.len() ==> (#[trigger] copied@[j]).0@ == given[j].0@
                            && copied@[j].1@ == toml_contents(given[j].1),
            {
                proof {
                    let inner = given.map_values(
                        |e: (String, toml::Value)| (e.0@, toml_contents(e.1)),
                    );
                    assert(inner[it.index()].1 == toml_contents(entry.1));
                    assert(decreases_to!(whole => whole->Table_0));
                    assert(decreases_to!(inner => inner[it.index()]));
                    assert(decreases_to!(inner[it.index()] => inner[it.index()].1));
                }
                copied.push((entry.0, copy_tree(entry.1)));
            }
            let tree = Toml::Table(copied);
            assert(tree@->Table_0 == whole->Table_0);
            tree
        },
    }
}

/// Parses a TOML document, as `toml::from_str` does. An `Err` holds the text of its error.
pub fn parse_toml(text: &str) -> (result: Result<Toml, String>)
    ensures
        match result {
            Ok(tree) => toml_document(text@) == Ok::<Node, Seq<char>>(tree@),
            Err(message) => toml_document(text@) == Err::<Node, Seq<char>>(message@),
        },
{
    match toml_from_str(text) {
        Ok(value) => Ok(copy_tree(value)),
        Err(message) => Err(message),
    }
}

/// The entries of a table as mathematical values.
pub open spec fn entries_view(entries: Seq<(String, Toml)>) -> Seq<(Seq<char>, Node)> {
    entries.map_values(|e: (String, Toml)| (e.0@, e.1@))
}

/// The elements of an array as mathematical values.
pub open spec fn items_view(items: Seq<Toml>) -> Seq<Node> {
    items.map_values(|v: Toml| v@)
}

/// An entry has the key.
pub open spec fn has_key(key: Seq<char>) -> spec_fn((Seq<char>, Node)) -> bool {
    |e: (Seq<char>, Node)| e.0 == key
}

/// The value that `entries` holds under `key`.
pub open spec fn lookup(entries: Seq<(Seq<char>, Node)>, key: Seq<char>) -> Option<Node> {
    match rows::first_such(entries, has_key(key)) {
        Some(entry) => Some(entry.1),
        None => None,
    }
}

impl Node {
    /// The value under `key`, if this is a table that has the key.
    pub open spec fn get(self, key: Seq<char>) -> Option<Node> {
        match self {
            Node::Table(entries) => lookup(entries, key),
            _ => None,
        }
    }

    /// The table under `key`, if this is a table that has a table there.
    pub open spec fn get_table(self, key: Seq<char>) -> Option<Seq<(Seq<char>, Node)>> {
        match self.get(key) {
            Some(Node::Table(entries)) => Some(entries),
            _ => None,
        }
    }
}

/// Finds the value under `key` among the entries of a table.
pub fn find_entry<'a>(entries: &'a Vec<(String, Toml)>, key: &str) -> (found: Option<&'a Toml>)
    ensures
        match found {
            Some(value) => lookup(entries_view(entries@), key@) == Some(value@),
            None => lookup(entries_view(entries@), key@) is None,
        },
{
    let wanted: String = key.to_owned();
    let ghost all = entries_view(entries@);
    let ghost named = has_key(key@);
    let mut i: usize = 0;
    while i < entries.len()
        invariant
            i <= entries.len(),
            wanted@ == key@,
            all == entries_view(entries@),
            named == has_key(key@),
            forall|j: int| 0 <= j < i ==> !named(#[trigger] all[j]),
        decreases entries.len() - i,
    {
        assert(all[i as int] == (entries@[i as int].0@, entries@[i as int].1@));
        if entries[i].0 == wanted {
            proof {
                rows::lemma_first_where(all, named, i as int);
            }
            return Some(&entries[i].1);
        }
        i += 1;
    }
    proof {
        rows::lemma_first_where(all, named, i as int);
    }
    None
}

impl Toml {
    /// The entries, if this is a table.
    pub fn as_table(&self) -> (table: Option<&Vec<(String, Toml)>>)
        ensures
            match table {
                Some(entries) => self@ == Node::Table(entries_view(entries@)),
                None => !(self@ is Table),
            },
    {
        match self {
            Toml::Table(entries) => {
                reveal_with_fuel(<Toml as View>::view, 2);
                assert(self@->Table_0 == entries_view(entries@));
                Some(entries)
            },
            _ => None,
        }
    }

    /// The elements, if this is an array.
    pub fn as_array(&self) -> (array: Option<&Vec<Toml>>)
        ensures
            match array {
                Some(items) => self@ == Node::Array(items_view(items@)),
                None => !(self@ is Array),
            },
    {
        match self {
            Toml::Array(items) => {
                reveal_with_fuel(<Toml as View>::view, 2);
                assert(self@->Array_0 == items_view(items@));
                Some(items)
            },
            _ => None,
        }
    }

    /// The text, if this is one.
    pub fn as_str(&self) -> (text: Option<&String>)
        ensures
            match text {
                Some(s) => self@ == Node::Text(s@),
                None => !(self@ is Text),
            },
    {
        match self {
            Toml::Text(s) => Some(s),
            _ => None,
        }
    }

    /// The value under `key`, if this is a table that has the key.
    pub fn get(&self, key: &str) -> (found: Option<&Toml>)
        ensures
            match found {
                Some(value) => self@.get(key@) == Some(value@),
                None => self@.get(key@) is None,
            },
    {
        match self.as_table() {
            Some(entries) => find_entry(entries, key),
            None => None,
        }
    }

    /// The entries of the table under `key`, if this is a table that has a table there.
    pub fn get_table(&self, key: &str) -> (found: Option<&Vec<(String, Toml)>>)
        ensures
            match found {
                Some(entries) => self@.get_table(key@) == Some(entries_view(entries@)),
                None => self@.get_table(key@) is None,
            },
    {
        match self.get(key) {
            Some(value) => value.as_table(),
            None => None,
        }
    }
}

/// A table holds under a key what its first entry with that key holds.
pub proof fn the_first_entry_with_a_key_counts(
    entries: Seq<(Seq<char>, Node)>,
    key: Seq<char>,
    k: int,
)
    requires
        0 <= k < entries.len(),
        entries[k].0 == key,
        forall|j: int| 0 <= j < k ==> (#[trigger] entries[j]).0 != key,
    ensures
        lookup(entries, key) == Some(entries[k].1),
        Node::Table(entries).get(key) == Some(entries[k].1),
        Node::Table(entries).get_table(key) == match entries[k].1 {
            Node::Table(inner) => Some(inner),
            _ => None,
        },
{
    let named = has_key(key);
    assert forall|j: int| 0 <= j < k implies !named(#[trigger] entries[j]) by {}
    rows::lemma_first_where(entries, named, k);
}

/// Nothing is held under a key that no entry has, nor by what is no table.
pub proof fn a_key_that_is_not_there_holds_nothing(
    value: Node,
    entries: Seq<(Seq<char>, Node)>,
    key: Seq<char>,
)
    requires
        value is Table ==> value == Node::Table(entries),
        forall|j: int| 0 <= j < entries.len() ==> (#[trigger] entries[j]).0 != key,
    ensures
        lookup(entries, key) is None,
        value.get(key) is None,
        value.get_table(key) is None,
{
    let named = has_key(key);
    assert forall|j: int| 0 <= j < entries.len() implies !named(#[trigger] entries[j]) by {}
    rows::lemma_first_where(entries, named, entries.len() as int);
}

/// Entries and elements are seen as they are, each in its place.
pub proof fn entries_and_elements_are_seen_whole(
    entries: Seq<(String, Toml)>,
    items: Seq<Toml>,
)
    ensures
        entries_view(entries).len() == entries.len(),
        forall|i: int|
            0 <= i < entries.len() ==> (#[trigger] entries_view(entries)[i]).0 == entries[i].0@
                && entries_view(entries)[i].1 == entries[i].1@,
        items_view(items).len() == items.len(),
        forall|i: int| 0 <= i < items.len() ==> #[trigger] items_view(items)[i] == items[i]@,
{
}

/// Among some entries the first with the given key stands at `k`.
pub open spec fn first_with_key(entries: Seq<(Seq<char>, Node)>, key: Seq<char>, k: int) -> bool {
    &&& 0 <= k < entries.len()
    &&& entries[k].0 == key
    &&& forall|j: int| 0 <= j < k ==> (#[trigger] entries[j]).0 != key
}

/// Some entry has the key exactly if there is a first one.
pub proof fn lemma_first_with_key(entries: Seq<(Seq<char>, Node)>, key: Seq<char>)
    ensures
        match lookup(entries, key) {
            Some(value) => exists|k: int| #[trigger]
                first_with_key(entries, key, k) && entries[k].1 == value,
            None => forall|k: int| 0 <= k < entries.len() ==> (#[trigger] entries[k]).0 != key,
        },
        forall|k: int| #[trigger]
            first_with_key(entries, key, k) ==> lookup(entries, key) == Some(entries[k].1),
{
    let named = has_key(key);
    let k = rows::first_where(entries, named);
    rows::lemma_first_where_found(entries, named);
    assert forall|j: int| 0 <= j < k implies (#[trigger] entries[j]).0 != key by {
        assert(!named(entries[j]));
    }
    if k < entries.len() {
        assert(first_with_key(entries, key, k));
    }
    assert forall|i: int| #[trigger] first_with_key(entries, key, i) implies lookup(entries, key)
        == Some(entries[i].1) by {
        the_first_entry_with_a_key_counts(entries, key, i);
    }
}

/// Documents are seen as they are.
pub proof fn documents_are_seen_whole(items: Vec<Toml>, entries: Vec<(String, Toml)>, value: Toml)
    ensures
        value matches Toml::Text(s) ==> value@ == Node::Text(s@),
        value matches Toml::Integer(n) ==> value@ == Node::Integer(n as int),
        value matches Toml::Boolean(b) ==> value@ == Node::Boolean(b),
        value is Float <==> value@ is Float,
        value is Datetime <==> value@ is Datetime,
        Toml::Array(items)@ == Node::Array(items_view(items@)),
        Toml::Table(entries)@ == Node::Table(entries_view(entries@)),
{
    reveal_with_fuel(<Toml as View>::view, 2);
    assert(Toml::Array(items)@->Array_0 == items_view(items@));
    assert(Toml::Table(entries)@->Table_0 == entries_view(entries@));
}

} // verus!
