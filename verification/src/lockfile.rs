//! The versions that a lock file holds.

use crate::document;
use crate::document::{parse_toml, Node, Toml};
use crate::text;
use vstd::prelude::*;

verus! {

/// The version of a package entry, if the entry has the name and a version.
pub open spec fn version_of(entry: Node, name: Seq<char>) -> Option<Seq<char>> {
    if entry.get("name"@) == Some(Node::Text(name)) {
        match entry.get("version"@) {
            Some(Node::Text(version)) => Some(version),
            _ => None,
        }
    } else {
        None
    }
}

/// The versions of the entries with the name, in their order.
pub open spec fn versions_named(entries: Seq<Node>, name: Seq<char>) -> Seq<Seq<char>>
    decreases entries.len(),
{
    if entries.len() == 0 {
        Seq::empty()
    } else {
        let before = versions_named(entries.drop_last(), name);
        match version_of(entries.last(), name) {
            Some(version) => before.push(version),
            None => before,
        }
    }
}

/// The versions at which a lock file holds the package of the given name.
pub open spec fn locked_in(lock: Node, name: Seq<char>) -> Seq<Seq<char>> {
    match lock.get("package"@) {
        Some(Node::Array(entries)) => versions_named(entries, name),
        _ => Seq::empty(),
    }
}

/// Reads the version of a package entry, if the entry has the name and a version.
fn entry_version(entry: &Toml, name: &String) -> (version: Option<String>)
    ensures
        match version {
            Some(v) => version_of(entry@, name@) == Some(v@),
            None => version_of(entry@, name@) is None,
        },
{
    let package = match entry.get("name") {
        Some(value) => match value.as_str() {
            Some(s) => s,
            None => return None,
        },
        None => return None,
    };
    if *package == *name {
        match entry.get("version") {
            Some(value) => match value.as_str() {
                Some(s) => Some(s.clone()),
                None => None,
            },
            None => None,
        }
    } else {
        None
    }
}

/// The versions at which a lock file holds the package `name`, in the order of the file.
pub fn locked_versions_in(lock: &Toml, name: &str) -> (versions: Vec<String>)
    ensures
        text::texts_view(versions@) == locked_in(lock@, name@),
{
    let mut versions: Vec<String> = Vec::new();
    let entries = match lock.get("package") {
        Some(value) => match value.as_array() {
            Some(entries) => entries,
            None => {
                assert(text::texts_view(versions@) == Seq::<Seq<char>>::empty());
                return versions;
            },
        },
        None => {
            assert(text::texts_view(versions@) == Seq::<Seq<char>>::empty());
            return versions;
        },
    };
    let wanted: String = name.to_owned();
    let ghost all = document::items_view(entries@);
    let mut i: usize = 0;
    assert(text::texts_view(versions@) == versions_named(all.take(0), name@));
    while i < entries.len()
        invariant
            i <= entries.len(),
            all == document::items_view(entries@),
            wanted@ == name@,
            text::texts_view(versions@) == versions_named(all.take(i as int), name@),
        decreases entries.len() - i,
    {
        let ghost before = text::texts_view(versions@);
        proof {
            assert(all.take(i + 1).drop_last() == all.take(i as int));
            assert(all.take(i + 1).last() == entries@[i as int]@);
        }
        if let Some(version) = entry_version(&entries[i], &wanted) {
            let ghost added = version@;
            versions.push(version);
            assert(text::texts_view(versions@) == before.push(added));
        }
        i += 1;
    }
    assert(all.take(i as int) == all);
    versions
}

/// The versions at which the text of a lock file holds the package `name`. A text that is no
/// TOML document holds none.
pub fn locked_versions_from_str(contents: &str, name: &str) -> (versions: Vec<String>)
    ensures
        text::texts_view(versions@) == match document::toml_document(contents@) {
            Ok(lock) => locked_in(lock, name@),
            Err(_) => Seq::empty(),
        },
{
    match parse_toml(contents) {
        Ok(lock) => locked_versions_in(&lock, name),
        Err(_) => {
            let versions: Vec<String> = Vec::new();
            assert(text::texts_view(versions@) == Seq::<Seq<char>>::empty());
            versions
        },
    }
}

/// A lock file holds a package at exactly the versions of the entries with its name.
pub proof fn locked_versions_are_those_of_the_name(
    entries: Seq<Node>,
    name: Seq<char>,
    version: Seq<char>,
)
    ensures
        versions_named(entries, name).contains(version) <==> exists|i: int|
            0 <= i < entries.len() && version_of(#[trigger] entries[i], name) == Some(version),
    decreases entries.len(),
{
    if entries.len() > 0 {
        let rest = entries.drop_last();
        let before = versions_named(rest, name);
        let all = versions_named(entries, name);
        locked_versions_are_those_of_the_name(rest, name, version);
        assert(entries[entries.len() - 1] == entries.last());
        if before.contains(version) {
            let i = choose|i: int|
                0 <= i < rest.len() && version_of(#[trigger] rest[i], name) == Some(version);
            assert(entries[i] == rest[i]);
            let k = choose|k: int| 0 <= k < before.len() && before[k] == version;
            assert(all[k] == version);
        }
        if version_of(entries.last(), name) == Some(version) {
            assert(all.last() == version);
        }
        if all.contains(version) && !before.contains(version) {
            let k = choose|k: int| 0 <= k < all.len() && all[k] == version;
            assert(k < before.len() ==> before[k] == version);
        }
        if exists|i: int|
            0 <= i < entries.len() && version_of(#[trigger] entries[i], name) == Some(version) {
            let i = choose|i: int|
                0 <= i < entries.len() && version_of(#[trigger] entries[i], name) == Some(version);
            if i < rest.len() {
                assert(rest[i] == entries[i]);
            }
        }
    }
}

/// The version of an entry depends on its name and its version alone: an entry with the name and
/// a version is locked at that version, whatever else it holds.
pub proof fn an_entry_counts_by_its_name_and_version_alone(
    fields: Seq<(Seq<char>, Node)>,
    a: int,
    b: int,
    name: Seq<char>,
    version: Seq<char>,
)
    requires
        document::first_with_key(fields, "name"@, a),
        fields[a].1 == Node::Text(name),
        document::first_with_key(fields, "version"@, b),
        fields[b].1 == Node::Text(version),
    ensures
        version_of(Node::Table(fields), name) == Some(version),
        versions_named(seq![Node::Table(fields)], name) == seq![version],
{
    document::lemma_first_with_key(fields, "name"@);
    document::lemma_first_with_key(fields, "version"@);
    let entries = seq![Node::Table(fields)];
    assert(entries.drop_last() == Seq::<Node>::empty());
    reveal_with_fuel(versions_named, 2);
}

/// An entry that is no table, that has not the name as a text, or that has no version as a text,
/// is not counted.
pub proof fn any_other_entry_does_not_count(entry: Node, name: Seq<char>)
    requires
        forall|fields: Seq<(Seq<char>, Node)>, a: int, b: int|
            #![trigger document::first_with_key(fields, "name"@, a), document::first_with_key(
                fields,
                "version"@,
                b,
            )]
            entry == Node::Table(fields) && document::first_with_key(fields, "name"@, a)
                && document::first_with_key(fields, "version"@, b) ==> fields[a].1 != Node::Text(
                name,
            ) || !(fields[b].1 is Text),
    ensures
        version_of(entry, name) is None,
        versions_named(seq![entry], name).len() == 0,
{
    if entry is Table {
        let fields = entry->Table_0;
        document::lemma_first_with_key(fields, "name"@);
        document::lemma_first_with_key(fields, "version"@);
    }
    let entries = seq![entry];
    assert(entries.drop_last() == Seq::<Node>::empty());
    reveal_with_fuel(versions_named, 2);
}

/// The versions of some entries after others are the versions of the ones after those of the
/// others: every entry counts, each time, in its place.
pub proof fn entries_count_one_after_another(x: Seq<Node>, y: Seq<Node>, name: Seq<char>)
    ensures
        versions_named(x + y, name) == versions_named(x, name) + versions_named(y, name),
        versions_named(Seq::empty(), name).len() == 0,
    decreases y.len(),
{
    if y.len() == 0 {
        assert(x + y == x);
    } else {
        entries_count_one_after_another(x, y.drop_last(), name);
        assert((x + y).drop_last() == x + y.drop_last());
        assert((x + y).last() == y.last());
    }
}

/// A lock file holds a package at the versions of the entries of its first `package` array,
/// whatever else it holds; without such an array it holds none.
pub proof fn the_package_array_is_read(top: Seq<(Seq<char>, Node)>, p: int, name: Seq<char>)
    requires
        document::first_with_key(top, "package"@, p),
    ensures
        top[p].1 matches Node::Array(entries) ==> locked_in(Node::Table(top), name)
            == versions_named(entries, name),
        !(top[p].1 is Array) ==> locked_in(Node::Table(top), name).len() == 0,
{
    document::lemma_first_with_key(top, "package"@);
}

/// A lock file without a `package` array holds nothing.
pub proof fn without_packages_nothing_is_locked(lock: Node, name: Seq<char>)
    requires
        forall|top: Seq<(Seq<char>, Node)>, p: int|
            lock == Node::Table(top) ==> !(#[trigger] document::first_with_key(
                top,
                "package"@,
                p,
            )),
    ensures
        locked_in(lock, name).len() == 0,
{
    if lock is Table {
        document::lemma_first_with_key(lock->Table_0, "package"@);
    }
}

} // verus!
