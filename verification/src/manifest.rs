//! The dependencies that a Cargo manifest declares.

use crate::document;
use crate::document::{find_entry, parse_toml, Node, Toml};
use crate::rows;
use crate::text;
use crate::text::{comes_before, starts_with_equals};
use vstd::prelude::*;
use vstd::string::*;

verus! {

/// Where a dependency comes from.
#[derive(Debug)]
pub enum DepKind {
    /// A registry, with the version requirement and whether that is an `=` pin.
    Registry { req: String, pinned: bool },
    /// A directory.
    Path,
    /// A git repository.
    Git,
}

/// A dependency by the name of its package.
#[derive(Debug)]
pub struct Dependency {
    pub name: String,
    pub kind: DepKind,
}

/// The mathematical value of a [`DepKind`].
pub enum KindModel {
    Registry { req: Seq<char>, pinned: bool },
    Path,
    Git,
}

/// The mathematical value of a [`Dependency`].
pub struct DependencyModel {
    pub name: Seq<char>,
    pub kind: KindModel,
}

impl View for DepKind {
    type V = KindModel;

    open spec fn view(&self) -> KindModel {
        match self {
            DepKind::Registry { req, pinned } => KindModel::Registry { req: req@, pinned: *pinned },
            DepKind::Path => KindModel::Path,
            DepKind::Git => KindModel::Git,
        }
    }
}

impl View for Dependency {
    type V = DependencyModel;

    open spec fn view(&self) -> DependencyModel {
        DependencyModel { name: self.name@, kind: self.kind@ }
    }
}

/// The mathematical values of some dependencies.
pub open spec fn deps_view(deps: Seq<Dependency>) -> Seq<DependencyModel> {
    deps.map_values(|d: Dependency| d@)
}

/// A requirement is a pin if `=` is the first character in it that is no white space.
pub open spec fn is_pin(req: Seq<char>) -> bool {
    text::trim_start(req).len() > 0 && text::trim_start(req)[0] == '='
}

/// The dependency on a registry package with the given requirement.
pub open spec fn registry_dep(name: Seq<char>, req: Seq<char>) -> DependencyModel {
    DependencyModel { name, kind: KindModel::Registry { req, pinned: is_pin(req) } }
}

/// The text under `key`, or `default` where there is none.
pub open spec fn text_or(
    entries: Seq<(Seq<char>, Node)>,
    key: Seq<char>,
    default: Seq<char>,
) -> Seq<char> {
    match document::lookup(entries, key) {
        Some(Node::Text(s)) => s,
        _ => default,
    }
}

/// The dependency that one entry of a dependency table declares.
pub open spec fn declared_by(name: Seq<char>, value: Node) -> DependencyModel {
    match value {
        Node::Text(req) => registry_dep(name, req),
        Node::Table(entries) => {
            let package = text_or(entries, "package"@, name);
            if document::lookup(entries, "path"@) is Some {
                DependencyModel { name: package, kind: KindModel::Path }
            } else if document::lookup(entries, "git"@) is Some {
                DependencyModel { name: package, kind: KindModel::Git }
            } else {
                registry_dep(package, text_or(entries, "version"@, Seq::empty()))
            }
        },
        _ => registry_dep(name, Seq::empty()),
    }
}

/// Reads one entry of a dependency table: a requirement, or a table with details.
pub fn classify(name: &str, value: &Toml) -> (dep: Dependency)
    ensures
        dep@ == declared_by(name@, value@),
{
    if let Some(req) = value.as_str() {
        let pinned: bool = starts_with_equals(req);
        return Dependency {
            name: name.to_owned(),
            kind: DepKind::Registry { req: req.clone(), pinned },
        };
    }
    if let Some(entries) = value.as_table() {
        let package: String = match find_entry(entries, "package") {
            Some(v) => match v.as_str() {
                Some(s) => s.clone(),
                None => name.to_owned(),
            },
            None => name.to_owned(),
        };
        if find_entry(entries, "path").is_some() {
            return Dependency { name: package, kind: DepKind::Path };
        }
        if find_entry(entries, "git").is_some() {
            return Dependency { name: package, kind: DepKind::Git };
        }
        let req: String = match find_entry(entries, "version") {
            Some(v) => match v.as_str() {
                Some(s) => s.clone(),
                None => String::new(),
            },
            None => String::new(),
        };
        let pinned: bool = starts_with_equals(&req);
        return Dependency { name: package, kind: DepKind::Registry { req, pinned } };
    }
    Dependency {
        name: name.to_owned(),
        kind: DepKind::Registry { req: String::new(), pinned: false },
    }
}

/// The dependencies that a dependency table declares, in the order of its entries.
pub open spec fn section_deps(entries: Seq<(Seq<char>, Node)>) -> Seq<DependencyModel> {
    entries.map_values(|e: (Seq<char>, Node)| declared_by(e.0, e.1))
}

/// The dependencies of the dependency table under `key`, none if there is no such table.
pub open spec fn deps_under(value: Node, key: Seq<char>) -> Seq<DependencyModel> {
    match value.get_table(key) {
        Some(entries) => section_deps(entries),
        None => Seq::empty(),
    }
}

/// The dependencies of the three kinds of section: normal, development and build.
pub open spec fn deps_in_sections(value: Node) -> Seq<DependencyModel> {
    deps_under(value, "dependencies"@) + deps_under(value, "dev-dependencies"@) + deps_under(
        value,
        "build-dependencies"@,
    )
}

/// The dependencies of all the targets of a `target` table.
pub open spec fn deps_of_targets(targets: Seq<(Seq<char>, Node)>) -> Seq<DependencyModel>
    decreases targets.len(),
{
    if targets.len() == 0 {
        Seq::empty()
    } else {
        deps_of_targets(targets.drop_last()) + deps_in_sections(targets.last().1)
    }
}

/// All the declarations of a manifest: those of its own sections, then those of its targets,
/// then those of the workspace.
pub open spec fn declarations(manifest: Node) -> Seq<DependencyModel> {
    deps_in_sections(manifest) + (match manifest.get_table("target"@) {
        Some(targets) => deps_of_targets(targets),
        None => Seq::empty(),
    }) + (match manifest.get("workspace"@) {
        Some(workspace) => deps_under(workspace, "dependencies"@),
        None => Seq::empty(),
    })
}

/// The first declaration of a name.
pub open spec fn first_named(deps: Seq<DependencyModel>, name: Seq<char>) -> Option<
    DependencyModel,
> {
    rows::first_such(deps, |d: DependencyModel| d.name == name)
}

/// The first declaration of a name that points to a directory or a git repository.
pub open spec fn first_local(deps: Seq<DependencyModel>, name: Seq<char>) -> Option<
    DependencyModel,
> {
    rows::first_such(deps, |d: DependencyModel| d.name == name && !(d.kind is Registry))
}

/// What several declarations of a name come to: the first that points to a directory or a
/// git repository, and where there is none the first.
pub open spec fn merged_kind(deps: Seq<DependencyModel>, name: Seq<char>) -> KindModel {
    match first_local(deps, name) {
        Some(d) => d.kind,
        None => first_named(deps, name)->0.kind,
    }
}

/// The names stand in strictly ascending order.
pub open spec fn ascending(deps: Seq<DependencyModel>) -> bool {
    forall|i: int, j: int|
        0 <= i < j < deps.len() ==> text::precedes((#[trigger] deps[i]).name, (#[trigger] deps[j]).name)
}

/// `merged` has each name that `deps` declare once, in ascending order, with the kind that its
/// declarations come to.
pub open spec fn is_merge_of(
    merged: Seq<DependencyModel>,
    deps: Seq<DependencyModel>,
) -> bool {
    &&& ascending(merged)
    &&& forall|i: int|
        0 <= i < merged.len() ==> {
            &&& first_named(deps, (#[trigger] merged[i]).name) is Some
            &&& merged[i].kind == merged_kind(deps, merged[i].name)
        }
    &&& forall|j: int|
        0 <= j < deps.len() ==> has_name(merged, (#[trigger] deps[j]).name)
}

/// One of `deps` has the name.
pub open spec fn has_name(deps: Seq<DependencyModel>, name: Seq<char>) -> bool {
    exists|i: int| 0 <= i < deps.len() && (#[trigger] deps[i]).name == name
}

/// A further declaration of a name that is not there yet goes to its place in the order.
proof fn lemma_merge_new(
    merged: Seq<DependencyModel>,
    deps: Seq<DependencyModel>,
    dep: DependencyModel,
    k: int,
)
    requires
        is_merge_of(merged, deps),
        0 <= k <= merged.len(),
        forall|i: int| 0 <= i < k ==> text::precedes((#[trigger] merged[i]).name, dep.name),
        k < merged.len() ==> text::precedes(dep.name, merged[k].name),
    ensures
        is_merge_of(merged.insert(k, dep), deps.push(dep)),
{
    let out = merged.insert(k, dep);
    let all = deps.push(dep);
    assert forall|i: int| k <= i < merged.len() implies text::precedes(
        dep.name,
        (#[trigger] merged[i]).name,
    ) by {
        if i > k {
            text::precedes_is_transitive(dep.name, merged[k].name, merged[i].name);
        }
    }
    assert forall|i: int| 0 <= i < merged.len() implies (#[trigger] merged[i]).name != dep.name by {
        text::precedes_is_irreflexive(dep.name);
    }
    assert forall|i: int, j: int| 0 <= i < j < out.len() implies text::precedes(
        (#[trigger] out[i]).name,
        (#[trigger] out[j]).name,
    ) by {
        let a = if i < k { i } else { i - 1 };
        let b = if j < k { j } else { j - 1 };
        if i != k {
            assert(out[i] == merged[a]);
        }
        if j != k {
            assert(out[j] == merged[b]);
        }
    }
    assert(first_named(deps, dep.name) is None && first_local(deps, dep.name) is None) by {
        rows::lemma_first_such_found(deps, |d: DependencyModel| d.name == dep.name);
        rows::lemma_first_such_found(
            deps,
            |d: DependencyModel| d.name == dep.name && !(d.kind is Registry),
        );
        if first_named(deps, dep.name) is Some {
            let d = first_named(deps, dep.name)->0;
            let j = choose|j: int| 0 <= j < deps.len() && deps[j] == d;
            assert(has_name(merged, deps[j].name));
        }
        if first_local(deps, dep.name) is Some {
            let d = first_local(deps, dep.name)->0;
            let j = choose|j: int| 0 <= j < deps.len() && deps[j] == d;
            assert(has_name(merged, deps[j].name));
        }
    }
    assert forall|i: int| 0 <= i < out.len() implies {
        &&& first_named(all, (#[trigger] out[i]).name) is Some
        &&& out[i].kind == merged_kind(all, out[i].name)
    } by {
        let name = out[i].name;
        rows::lemma_first_where_push(deps, dep, |d: DependencyModel| d.name == name);
        rows::lemma_first_where_push(
            deps,
            dep,
            |d: DependencyModel| d.name == name && !(d.kind is Registry),
        );
        if i != k {
            let a = if i < k { i } else { i - 1 };
            assert(out[i] == merged[a]);
            assert(merged[a].name != dep.name);
        }
    }
    assert forall|j: int| 0 <= j < all.len() implies has_name(out, (#[trigger] all[j]).name) by {
        if j < deps.len() {
            assert(has_name(merged, deps[j].name));
            let i = choose|i: int| 0 <= i < merged.len() && (#[trigger] merged[i]).name == deps[j].name;
            assert(out[if i < k { i } else { i + 1 }] == merged[i]);
        } else {
            assert(out[k].name == dep.name);
        }
    }
}

/// A further declaration of a name that is there already counts only if it is the first to
/// point to a directory or a git repository.
proof fn lemma_merge_known(
    merged: Seq<DependencyModel>,
    deps: Seq<DependencyModel>,
    dep: DependencyModel,
    k: int,
)
    requires
        is_merge_of(merged, deps),
        0 <= k < merged.len(),
        merged[k].name == dep.name,
    ensures
        is_merge_of(
            if merged[k].kind is Registry && !(dep.kind is Registry) {
                merged.update(k, dep)
            } else {
                merged
            },
            deps.push(dep),
        ),
{
    let replaces = merged[k].kind is Registry && !(dep.kind is Registry);
    let out = if replaces {
        merged.update(k, dep)
    } else {
        merged
    };
    let all = deps.push(dep);
    assert forall|i: int| 0 <= i < out.len() implies (#[trigger] out[i]).name == merged[i].name by {}
    assert forall|i: int, j: int| 0 <= i < j < out.len() implies text::precedes(
        (#[trigger] out[i]).name,
        (#[trigger] out[j]).name,
    ) by {
        assert(text::precedes(merged[i].name, merged[j].name));
    }
    rows::lemma_first_such_found(deps, |d: DependencyModel| d.name == dep.name && !(d.kind is Registry));
    rows::lemma_first_such_found(deps, |d: DependencyModel| d.name == dep.name);
    assert forall|i: int| 0 <= i < out.len() implies {
        &&& first_named(all, (#[trigger] out[i]).name) is Some
        &&& out[i].kind == merged_kind(all, out[i].name)
    } by {
        let name = out[i].name;
        assert(first_named(deps, merged[i].name) is Some);
        rows::lemma_first_where_push(deps, dep, |d: DependencyModel| d.name == name);
        rows::lemma_first_where_push(
            deps,
            dep,
            |d: DependencyModel| d.name == name && !(d.kind is Registry),
        );
        if i != k {
            assert(merged[i].name != dep.name) by {
                text::precedes_is_irreflexive(dep.name);
                if i < k {
                    assert(text::precedes(merged[i].name, merged[k].name));
                } else {
                    assert(text::precedes(merged[k].name, merged[i].name));
                }
            }
        } else {
            if first_local(deps, name) is None {
                let d = first_named(deps, name)->0;
                let j = choose|j: int| 0 <= j < deps.len() && deps[j] == d;
                assert(d.kind is Registry);
            }
        }
    }
    assert forall|j: int| 0 <= j < all.len() implies has_name(out, (#[trigger] all[j]).name) by {
        if j < deps.len() {
            assert(has_name(merged, deps[j].name));
            let i = choose|i: int| 0 <= i < merged.len() && (#[trigger] merged[i]).name == deps[j].name;
            assert(out[i].name == deps[j].name);
        } else {
            assert(out[k].name == dep.name);
        }
    }
}

/// Dependencies that stand in order of name are their own merge.
proof fn lemma_own_merge(deps: Seq<DependencyModel>)
    requires
        ascending(deps),
    ensures
        is_merge_of(deps, deps),
{
    assert forall|i: int| 0 <= i < deps.len() implies {
        &&& first_named(deps, (#[trigger] deps[i]).name) is Some
        &&& deps[i].kind == merged_kind(deps, deps[i].name)
    } by {
        let name = deps[i].name;
        assert forall|j: int| 0 <= j < deps.len() && (#[trigger] deps[j]).name == name implies j
            == i by {
            text::precedes_is_irreflexive(name);
        }
        rows::lemma_first_such_found(deps, |d: DependencyModel| d.name == name);
        rows::lemma_first_such_found(
            deps,
            |d: DependencyModel| d.name == name && !(d.kind is Registry),
        );
    }
    assert forall|j: int| 0 <= j < deps.len() implies has_name(deps, (#[trigger] deps[j]).name) by {
        assert(deps[j].name == deps[j].name);
    }
}

/// Adds one declaration to the merged dependencies.
fn add_declaration(out: &mut Vec<Dependency>, dep: Dependency)
    requires
        ascending(deps_view(old(out)@)),
    ensures
        ascending(deps_view(final(out)@)),
        forall|deps: Seq<DependencyModel>| #[trigger]
            is_merge_of(deps_view(old(out)@), deps) ==> is_merge_of(
                deps_view(final(out)@),
                deps.push(dep@),
            ),
{
    let ghost before = deps_view(out@);
    proof {
        lemma_own_merge(before);
    }
    let mut k: usize = 0;
    while k < out.len() && comes_before(out[k].name.as_str(), dep.name.as_str())
        invariant
            k <= out.len(),
            deps_view(out@) == before,
            forall|i: int|
                0 <= i < k ==> text::precedes((#[trigger] before[i]).name, dep.name@),
        decreases out.len() - k,
    {
        assert(before[k as int].name == out@[k as int].name@);
        k += 1;
    }
    if k < out.len() {
        assert(before[k as int] == out@[k as int]@);
    }
    if k < out.len() && out[k].name == dep.name {
        proof {
            assert forall|deps: Seq<DependencyModel>| #[trigger]
                is_merge_of(before, deps) implies is_merge_of(
                if before[k as int].kind is Registry && !(dep@.kind is Registry) {
                    before.update(k as int, dep@)
                } else {
                    before
                },
                deps.push(dep@),
            ) by {
                lemma_merge_known(before, deps, dep@, k as int);
            }
        }
        let replaces: bool = match (&out[k].kind, &dep.kind) {
            (DepKind::Registry { .. }, DepKind::Path) => true,
            (DepKind::Registry { .. }, DepKind::Git) => true,
            _ => false,
        };
        if replaces {
            let ghost added = dep@;
            out.set(k, dep);
            assert(deps_view(out@) == before.update(k as int, added));
        }
    } else {
        proof {
            assert forall|deps: Seq<DependencyModel>| #[trigger]
                is_merge_of(before, deps) implies is_merge_of(
                before.insert(k as int, dep@),
                deps.push(dep@),
            ) by {
                if k < out.len() {
                    text::precedes_is_total(dep.name@, before[k as int].name);
                }
                lemma_merge_new(before, deps, dep@, k as int);
            }
        }
        let ghost added = dep@;
        out.insert(k, dep);
        assert(deps_view(out@) == before.insert(k as int, added));
    }
}

/// Adds the declarations of a dependency table to the merged dependencies, which stand in order
/// of name.
pub fn collect_deps(table: &Vec<(String, Toml)>, out: &mut Vec<Dependency>)
    requires
        ascending(deps_view(old(out)@)),
    ensures
        ascending(deps_view(final(out)@)),
        forall|deps: Seq<DependencyModel>| #[trigger]
            is_merge_of(deps_view(old(out)@), deps) ==> is_merge_of(
                deps_view(final(out)@),
                deps + section_deps(document::entries_view(table@)),
            ),
{
    let ghost before = deps_view(out@);
    let ghost declared = section_deps(document::entries_view(table@));
    let mut i: usize = 0;
    proof {
        assert forall|deps: Seq<DependencyModel>| #[trigger]
            is_merge_of(before, deps) implies is_merge_of(
            deps_view(out@),
            deps + declared.take(0),
        ) by {
            assert(deps + declared.take(0) == deps);
        }
    }
    while i < table.len()
        invariant
            i <= table.len(),
            declared == section_deps(document::entries_view(table@)),
            ascending(deps_view(out@)),
            forall|deps: Seq<DependencyModel>| #[trigger]
                is_merge_of(before, deps) ==> is_merge_of(
                    deps_view(out@),
                    deps + declared.take(i as int),
                ),
        decreases table.len() - i,
    {
        let dep: Dependency = classify(table[i].0.as_str(), &table[i].1);
        let ghost added = dep@;
        assert(document::entries_view(table@)[i as int] == (table@[i as int].0@, table@[i as int].1@));
        assert(added == declared[i as int]);
        let ghost mid = deps_view(out@);
        add_declaration(out, dep);
        proof {
            assert forall|deps: Seq<DependencyModel>| #[trigger]
                is_merge_of(before, deps) implies is_merge_of(
                deps_view(out@),
                deps + declared.take(i + 1),
            ) by {
                assert(is_merge_of(mid, deps + declared.take(i as int)));
                assert((deps + declared.take(i as int)).push(added) == deps + declared.take(i + 1));
            }
        }
        i += 1;
    }
    assert(declared.take(i as int) == declared);
}

/// Adds the declarations of the dependency table under `key`, if there is one.
fn collect_under(value: &Toml, key: &str, out: &mut Vec<Dependency>)
    requires
        ascending(deps_view(old(out)@)),
    ensures
        ascending(deps_view(final(out)@)),
        forall|deps: Seq<DependencyModel>| #[trigger]
            is_merge_of(deps_view(old(out)@), deps) ==> is_merge_of(
                deps_view(final(out)@),
                deps + deps_under(value@, key@),
            ),
{
    match value.get_table(key) {
        Some(table) => collect_deps(table, out),
        None => {
            assert forall|deps: Seq<DependencyModel>| #[trigger]
                is_merge_of(deps_view(out@), deps) implies is_merge_of(
                deps_view(out@),
                deps + deps_under(value@, key@),
            ) by {
                assert(deps + deps_under(value@, key@) == deps);
            }
        },
    }
}

/// Adds the declarations of the normal, development and build sections.
fn collect_sections(value: &Toml, out: &mut Vec<Dependency>)
    requires
        ascending(deps_view(old(out)@)),
    ensures
        ascending(deps_view(final(out)@)),
        forall|deps: Seq<DependencyModel>| #[trigger]
            is_merge_of(deps_view(old(out)@), deps) ==> is_merge_of(
                deps_view(final(out)@),
                deps + deps_in_sections(value@),
            ),
{
    let ghost before = deps_view(out@);
    collect_under(value, "dependencies", out);
    let ghost first = deps_view(out@);
    collect_under(value, "dev-dependencies", out);
    let ghost second = deps_view(out@);
    collect_under(value, "build-dependencies", out);
    proof {
        let a = deps_under(value@, "dependencies"@);
        let b = deps_under(value@, "dev-dependencies"@);
        let c = deps_under(value@, "build-dependencies"@);
        assert forall|deps: Seq<DependencyModel>| #[trigger]
            is_merge_of(before, deps) implies is_merge_of(
            deps_view(out@),
            deps + deps_in_sections(value@),
        ) by {
            assert(is_merge_of(first, deps + a));
            assert(is_merge_of(second, deps + a + b));
            assert(deps + a + b + c == deps + (a + b + c));
        }
    }
}

/// The dependencies that a manifest declares, each package once, in ascending order of name.
/// A package that is declared several times is what its first declaration with a directory
/// or a git repository says, and where there is none what its first declaration says.
pub fn manifest_dependencies(manifest: &Toml) -> (deps: Vec<Dependency>)
    ensures
        is_merge_of(deps_view(deps@), declarations(manifest@)),
{
    let mut out: Vec<Dependency> = Vec::new();
    let ghost none = Seq::<DependencyModel>::empty();
    assert(is_merge_of(deps_view(out@), none));
    collect_sections(manifest, &mut out);
    let ghost own = none + deps_in_sections(manifest@);
    let ghost of_targets = match manifest@.get_table("target"@) {
        Some(targets) => deps_of_targets(targets),
        None => Seq::empty(),
    };
    match manifest.get_table("target") {
        Some(targets) => {
            let ghost all = document::entries_view(targets@);
            let mut i: usize = 0;
            assert(own + deps_of_targets(all.take(0)) == own);
            while i < targets.len()
                invariant
                    i <= targets.len(),
                    all == document::entries_view(targets@),
                    ascending(deps_view(out@)),
                    is_merge_of(deps_view(out@), own + deps_of_targets(all.take(i as int))),
                decreases targets.len() - i,
            {
                collect_sections(&targets[i].1, &mut out);
                proof {
                    let seen = all.take(i as int);
                    let more = all.take(i + 1);
                    assert(more.drop_last() == seen);
                    assert(more.last().1 == targets@[i as int].1@);
                    assert(own + deps_of_targets(seen) + deps_in_sections(targets@[i as int].1@)
                        == own + deps_of_targets(more));
                }
                i += 1;
            }
            assert(all.take(i as int) == all);
        },
        None => {
            assert(own + of_targets == own);
        },
    }
    let ghost so_far = own + of_targets;
    match manifest.get("workspace") {
        Some(workspace) => collect_under(workspace, "dependencies", &mut out),
        None => {
            assert(so_far + Seq::<DependencyModel>::empty() == so_far);
        },
    }
    proof {
        assert(own == deps_in_sections(manifest@));
    }
    out
}

/// A manifest that is no TOML document.
#[derive(Debug)]
pub struct ManifestError {
    /// What the parser says is wrong.
    pub reason: String,
}

impl ManifestError {
    /// What is wrong, without the parser's account.
    pub fn message(&self) -> (text: String)
        ensures
            text@ == "invalid TOML in manifest"@,
    {
        "invalid TOML in manifest".to_owned()
    }

    /// What is wrong, with the parser's account.
    pub fn full_message(&self) -> (text: String)
        ensures
            text@ == "invalid TOML in manifest: "@ + self.reason@,
    {
        let mut text: String = "invalid TOML in manifest: ".to_owned();
        text.append(self.reason.as_str());
        text
    }
}

/// Reads the text of a manifest and gives the dependencies that it declares.
pub fn parse_manifest_str(contents: &str) -> (result: Result<Vec<Dependency>, ManifestError>)
    ensures
        match document::toml_document(contents@) {
            Ok(manifest) => result matches Ok(deps) && is_merge_of(
                deps_view(deps@),
                declarations(manifest),
            ),
            Err(reason) => result matches Err(error) && error.reason@ == reason,
        },
{
    match parse_toml(contents) {
        Ok(manifest) => Ok(manifest_dependencies(&manifest)),
        Err(reason) => Err(ManifestError { reason }),
    }
}

/// What declarations come to is settled: no two different rows of dependencies are both the
/// merge of the same declarations.
pub proof fn merge_is_unique(
    a: Seq<DependencyModel>,
    b: Seq<DependencyModel>,
    deps: Seq<DependencyModel>,
)
    requires
        is_merge_of(a, deps),
        is_merge_of(b, deps),
    ensures
        a == b,
{
    lemma_same_names(a, b, deps);
    lemma_same_names(b, a, deps);
    let before = |x: DependencyModel, y: DependencyModel| text::precedes(x.name, y.name);
    assert forall|x: DependencyModel, y: DependencyModel| #[trigger] before(x, y) implies !before(
        y,
        x,
    ) by {
        if before(y, x) {
            text::precedes_is_transitive(x.name, y.name, x.name);
        }
        text::precedes_is_irreflexive(x.name);
    }
    assert forall|i: int, j: int| 0 <= i < j < a.len() implies before(
        #[trigger] a[i],
        #[trigger] a[j],
    ) by {}
    assert forall|i: int, j: int| 0 <= i < j < b.len() implies before(
        #[trigger] b[i],
        #[trigger] b[j],
    ) by {}
    rows::lemma_ordered_unique(a, b, before);
}

/// The packages are those that the manifest declares, each once.
pub proof fn each_declared_package_stands_once(
    merged: Seq<DependencyModel>,
    deps: Seq<DependencyModel>,
    name: Seq<char>,
)
    requires
        is_merge_of(merged, deps),
    ensures
        has_name(merged, name) <==> has_name(deps, name),
        forall|i: int, j: int|
            0 <= i < j < merged.len() ==> (#[trigger] merged[i]).name != (#[trigger] merged[j]).name,
{
    if has_name(merged, name) {
        let i = choose|i: int| 0 <= i < merged.len() && (#[trigger] merged[i]).name == name;
        rows::lemma_first_such_found(deps, |d: DependencyModel| d.name == merged[i].name);
        let d = first_named(deps, name)->0;
        let j = choose|j: int| 0 <= j < deps.len() && deps[j] == d;
        assert(deps[j].name == name);
    }
    if has_name(deps, name) {
        let j = choose|j: int| 0 <= j < deps.len() && (#[trigger] deps[j]).name == name;
        assert(has_name(merged, deps[j].name));
    }
    assert forall|i: int, j: int| 0 <= i < j < merged.len() implies (#[trigger] merged[i]).name != (
    #[trigger] merged[j]).name by {
        text::precedes_is_irreflexive(merged[i].name);
    }
}

/// A declaration that points to a directory or a git repository is never lost to one that names
/// a requirement.
pub proof fn a_local_declaration_is_not_lost(
    merged: Seq<DependencyModel>,
    deps: Seq<DependencyModel>,
    i: int,
)
    requires
        is_merge_of(merged, deps),
        0 <= i < merged.len(),
    ensures
        merged[i].kind is Registry <==> forall|j: int|
            0 <= j < deps.len() && (#[trigger] deps[j]).name == merged[i].name
                ==> deps[j].kind is Registry,
{
    let name = merged[i].name;
    rows::lemma_first_such_found(deps, |d: DependencyModel| d.name == name && !(d.kind is Registry));
    rows::lemma_first_such_found(deps, |d: DependencyModel| d.name == name);
    match first_local(deps, name) {
        Some(d) => {
            let j = choose|j: int| 0 <= j < deps.len() && deps[j] == d;
            assert(deps[j].name == name && !(deps[j].kind is Registry));
        },
        None => {
            let d = first_named(deps, name)->0;
            let j = choose|j: int| 0 <= j < deps.len() && deps[j] == d;
            assert(deps[j].kind is Registry);
        },
    }
}

proof fn lemma_same_names(
    a: Seq<DependencyModel>,
    b: Seq<DependencyModel>,
    deps: Seq<DependencyModel>,
)
    requires
        is_merge_of(a, deps),
        is_merge_of(b, deps),
    ensures
        forall|i: int| 0 <= i < a.len() ==> b.contains(#[trigger] a[i]),
{
    assert forall|i: int| 0 <= i < a.len() implies b.contains(#[trigger] a[i]) by {
        let name = a[i].name;
        rows::lemma_first_such_found(deps, |d: DependencyModel| d.name == name);
        let d = first_named(deps, name)->0;
        let j = choose|j: int| 0 <= j < deps.len() && deps[j] == d;
        assert(has_name(b, deps[j].name));
        let k = choose|k: int| 0 <= k < b.len() && (#[trigger] b[k]).name == name;
        assert(b[k] == a[i]);
    }
}

/// A requirement is pinned exactly if `=` stands in it with nothing but white space before.
pub proof fn a_pin_begins_with_an_equals_sign(req: Seq<char>)
    ensures
        is_pin(req) <==> exists|k: int|
            {
                &&& 0 <= k < req.len()
                &&& #[trigger] req[k] == '='
                &&& forall|j: int| 0 <= j < k ==> text::is_white_space(#[trigger] req[j])
            },
{
    let white = |c: char| !text::is_white_space(c);
    let k = rows::first_where(req, white);
    rows::lemma_first_where_found(req, white);
    assert forall|j: int| 0 <= j < k implies text::is_white_space(#[trigger] req[j]) by {
        assert(!white(req[j]));
    }
    text::only_leading_white_space_is_taken_off(req, k);
    if exists|i: int|
        {
            &&& 0 <= i < req.len()
            &&& #[trigger] req[i] == '='
            &&& forall|j: int| 0 <= j < i ==> text::is_white_space(#[trigger] req[j])
        } {
        let i = choose|i: int|
            {
                &&& 0 <= i < req.len()
                &&& #[trigger] req[i] == '='
                &&& forall|j: int| 0 <= j < i ==> text::is_white_space(#[trigger] req[j])
            };
        assert(i == k);
    }
}

/// A declaration by a text alone names the requirement on the package of the entry's name.
pub proof fn a_text_declares_a_requirement(name: Seq<char>, req: Seq<char>)
    ensures
        declared_by(name, Node::Text(req)).name == name,
        declared_by(name, Node::Text(req)).kind == (KindModel::Registry {
            req,
            pinned: is_pin(req),
        }),
{
}

/// A declaration that is neither a text nor a table asks for no version in particular.
pub proof fn anything_else_declares_any_version(name: Seq<char>, value: Node)
    requires
        !(value is Text),
        !(value is Table),
    ensures
        declared_by(name, value).name == name,
        declared_by(name, value).kind matches KindModel::Registry { req, pinned } && req.len() == 0
            && !pinned,
{
    if is_pin(Seq::<char>::empty()) {
        a_pin_begins_with_an_equals_sign(Seq::empty());
    }
}

/// A table declares the package that it names under `package`, if that is a text, and else the
/// package of the entry's name.
pub proof fn a_table_may_rename_the_package(
    name: Seq<char>,
    fields: Seq<(Seq<char>, Node)>,
    k: int,
)
    ensures
        document::first_with_key(fields, "package"@, k) ==> declared_by(
            name,
            Node::Table(fields),
        ).name == match fields[k].1 {
            Node::Text(package) => package,
            _ => name,
        },
        (forall|j: int| 0 <= j < fields.len() ==> (#[trigger] fields[j]).0 != "package"@)
            ==> declared_by(name, Node::Table(fields)).name == name,
{
    document::lemma_first_with_key(fields, "package"@);
}

/// A table declares a directory exactly if it has the key `path`, and a git repository exactly if
/// it has the key `git` and not `path`, whatever else it has.
pub proof fn a_table_with_a_path_or_git_is_local(name: Seq<char>, fields: Seq<(Seq<char>, Node)>)
    ensures
        declared_by(name, Node::Table(fields)).kind is Path <==> exists|j: int|
            0 <= j < fields.len() && (#[trigger] fields[j]).0 == "path"@,
        declared_by(name, Node::Table(fields)).kind is Git <==> (exists|j: int|
            0 <= j < fields.len() && (#[trigger] fields[j]).0 == "git"@) && (forall|j: int|
            0 <= j < fields.len() ==> (#[trigger] fields[j]).0 != "path"@),
{
    document::lemma_first_with_key(fields, "path"@);
    document::lemma_first_with_key(fields, "git"@);
}

/// Any other table declares the requirement that it holds as a text under `version`, and none in
/// particular where it holds no such text.
pub proof fn any_other_table_declares_its_version(
    name: Seq<char>,
    fields: Seq<(Seq<char>, Node)>,
    k: int,
)
    requires
        declared_by(name, Node::Table(fields)).kind is Registry,
    ensures
        declared_by(name, Node::Table(fields)).kind->pinned == is_pin(
            declared_by(name, Node::Table(fields)).kind->req,
        ),
        document::first_with_key(fields, "version"@, k) ==> match fields[k].1 {
            Node::Text(req) => declared_by(name, Node::Table(fields)).kind->req == req,
            _ => declared_by(name, Node::Table(fields)).kind->req.len() == 0,
        },
        (forall|j: int| 0 <= j < fields.len() ==> (#[trigger] fields[j]).0 != "version"@)
            ==> declared_by(name, Node::Table(fields)).kind->req.len() == 0,
{
    document::lemma_first_with_key(fields, "version"@);
}

/// The row has one declaration for each of some entries, in their order.
pub open spec fn lists_entries(
    row: Seq<DependencyModel>,
    entries: Seq<(Seq<char>, Node)>,
) -> bool {
    &&& row.len() == entries.len()
    &&& forall|e: int|
        0 <= e < entries.len() ==> #[trigger] row[e] == declared_by(entries[e].0, entries[e].1)
}

/// `value` is a table whose first entry under `key`, at `s`, is a table.
pub open spec fn has_table(value: Node, key: Seq<char>, s: int) -> bool {
    &&& value is Table
    &&& document::first_with_key(value->Table_0, key, s)
    &&& value->Table_0[s].1 is Table
}

/// The entries of the table under a key, which stands at `s`.
pub open spec fn table_at(value: Node, s: int) -> Seq<(Seq<char>, Node)> {
    value->Table_0[s].1->Table_0
}

/// The row lists the entries of the table that `value` has under `key`, and is empty where there
/// is no such table.
pub open spec fn lists_table(row: Seq<DependencyModel>, value: Node, key: Seq<char>) -> bool {
    &&& forall|s: int| #[trigger]
        has_table(value, key, s) ==> lists_entries(row, table_at(value, s))
    &&& (forall|s: int| !(#[trigger] has_table(value, key, s))) ==> row.len() == 0
}

/// `value` has a table under `key` with an entry that declares `dep`.
pub open spec fn declares(value: Node, key: Seq<char>, dep: DependencyModel) -> bool {
    exists|s: int| #[trigger]
        has_table(value, key, s) && exists|e: int|
            {
                &&& 0 <= e < table_at(value, s).len()
                &&& dep == declared_by(
                    (#[trigger] table_at(value, s)[e]).0,
                    table_at(value, s)[e].1,
                )
            }
}

proof fn lemma_lists_table(value: Node, key: Seq<char>)
    ensures
        lists_table(deps_under(value, key), value, key),
        forall|dep: DependencyModel|
            #![trigger deps_under(value, key).contains(dep)]
            #![trigger declares(value, key, dep)]
            deps_under(value, key).contains(dep) <==> declares(value, key, dep),
{
    let row = deps_under(value, key);
    let fields = value->Table_0;
    if value is Table {
        document::lemma_first_with_key(fields, key);
    }
    assert forall|s: int| #[trigger] has_table(value, key, s) implies lists_entries(
        row,
        table_at(value, s),
    ) by {
        assert(document::lookup(fields, key) == Some(fields[s].1));
    }
    if row.len() > 0 {
        let s = choose|s: int| #[trigger]
            document::first_with_key(fields, key, s) && fields[s].1 == document::lookup(
                fields,
                key,
            )->0;
        assert(has_table(value, key, s));
    }
    assert forall|dep: DependencyModel| #[trigger] row.contains(dep) implies declares(
        value,
        key,
        dep,
    ) by {
        let s = choose|s: int| #[trigger] has_table(value, key, s);
        let e = choose|e: int| 0 <= e < row.len() && row[e] == dep;
        assert(dep == declared_by(table_at(value, s)[e].0, table_at(value, s)[e].1));
    }
    assert forall|dep: DependencyModel| #[trigger] declares(value, key, dep) implies row.contains(
        dep,
    ) by {
        let s = choose|s: int| #[trigger]
            has_table(value, key, s) && exists|e: int|
                {
                    &&& 0 <= e < table_at(value, s).len()
                    &&& dep == declared_by(
                        (#[trigger] table_at(value, s)[e]).0,
                        table_at(value, s)[e].1,
                    )
                };
        let e = choose|e: int|
            {
                &&& 0 <= e < table_at(value, s).len()
                &&& dep == declared_by(
                    (#[trigger] table_at(value, s)[e]).0,
                    table_at(value, s)[e].1,
                )
            };
        assert(row[e] == dep);
    }
}

/// Each of the three sections is read whole, entry by entry: normal, then development, then build
/// dependencies.
pub proof fn sections_are_read_in_order(value: Node)
    ensures
        exists|a: Seq<DependencyModel>, b: Seq<DependencyModel>, c: Seq<DependencyModel>|
            {
                &&& deps_in_sections(value) == #[trigger] (a + b + c)
                &&& lists_table(a, value, "dependencies"@)
                &&& lists_table(b, value, "dev-dependencies"@)
                &&& lists_table(c, value, "build-dependencies"@)
            },
{
    lemma_lists_table(value, "dependencies"@);
    lemma_lists_table(value, "dev-dependencies"@);
    lemma_lists_table(value, "build-dependencies"@);
    let a = deps_under(value, "dependencies"@);
    let b = deps_under(value, "dev-dependencies"@);
    let c = deps_under(value, "build-dependencies"@);
    assert(deps_in_sections(value) == a + b + c);
}

/// The targets are read one after another, each with all its sections, whatever it is called.
pub proof fn targets_are_read_one_after_another(
    x: Seq<(Seq<char>, Node)>,
    y: Seq<(Seq<char>, Node)>,
    name: Seq<char>,
    value: Node,
)
    ensures
        deps_of_targets(x + y) == deps_of_targets(x) + deps_of_targets(y),
        deps_of_targets(seq![(name, value)]) == deps_in_sections(value),
        deps_of_targets(Seq::empty()).len() == 0,
    decreases y.len(),
{
    let one = seq![(name, value)];
    assert(one.drop_last() == Seq::<(Seq<char>, Node)>::empty());
    reveal_with_fuel(deps_of_targets, 2);
    assert(deps_of_targets(one) == deps_in_sections(value));
    if y.len() == 0 {
        assert(x + y == x);
    } else {
        targets_are_read_one_after_another(x, y.drop_last(), name, value);
        assert((x + y).drop_last() == x + y.drop_last());
        assert((x + y).last() == y.last());
        assert(deps_of_targets(x) + deps_of_targets(y.drop_last()) + deps_in_sections(y.last().1)
            == deps_of_targets(x) + deps_of_targets(y));
    }
}

/// `value` declares `dep` in one of its three sections.
pub open spec fn declares_in_a_section(value: Node, dep: DependencyModel) -> bool {
    ||| declares(value, "dependencies"@, dep)
    ||| declares(value, "dev-dependencies"@, dep)
    ||| declares(value, "build-dependencies"@, dep)
}

proof fn lemma_declares_in_a_section(value: Node, dep: DependencyModel)
    ensures
        deps_in_sections(value).contains(dep) <==> declares_in_a_section(value, dep),
{
    lemma_lists_table(value, "dependencies"@);
    lemma_lists_table(value, "dev-dependencies"@);
    lemma_lists_table(value, "build-dependencies"@);
    let a = deps_under(value, "dependencies"@);
    let b = deps_under(value, "dev-dependencies"@);
    let c = deps_under(value, "build-dependencies"@);
    lemma_contains_sum(a + b, c, dep);
    lemma_contains_sum(a, b, dep);
}

proof fn lemma_contains_sum<A>(x: Seq<A>, y: Seq<A>, item: A)
    ensures
        (x + y).contains(item) <==> x.contains(item) || y.contains(item),
{
    let all = x + y;
    if x.contains(item) {
        let i = choose|i: int| 0 <= i < x.len() && x[i] == item;
        assert(all[i] == item);
    }
    if y.contains(item) {
        let i = choose|i: int| 0 <= i < y.len() && y[i] == item;
        assert(all[x.len() + i] == item);
    }
}

proof fn lemma_declares_in_a_target(targets: Seq<(Seq<char>, Node)>, dep: DependencyModel)
    ensures
        deps_of_targets(targets).contains(dep) <==> exists|t: int|
            0 <= t < targets.len() && declares_in_a_section((#[trigger] targets[t]).1, dep),
    decreases targets.len(),
{
    if targets.len() > 0 {
        let rest = targets.drop_last();
        lemma_declares_in_a_target(rest, dep);
        lemma_declares_in_a_section(targets.last().1, dep);
        lemma_contains_sum(deps_of_targets(rest), deps_in_sections(targets.last().1), dep);
        assert(targets[targets.len() - 1] == targets.last());
        if deps_of_targets(rest).contains(dep) {
            let t = choose|t: int|
                0 <= t < rest.len() && declares_in_a_section((#[trigger] rest[t]).1, dep);
            assert(targets[t] == rest[t]);
        }
        if exists|t: int|
            0 <= t < targets.len() && declares_in_a_section((#[trigger] targets[t]).1, dep) {
            let t = choose|t: int|
                0 <= t < targets.len() && declares_in_a_section((#[trigger] targets[t]).1, dep);
            if t < rest.len() {
                assert(rest[t] == targets[t]);
            }
        }
    }
}

/// A manifest declares exactly what stands in a normal, development or build section of its own
/// or of one of its targets, or among the dependencies of the workspace.
pub proof fn every_section_is_read(
    fields: Seq<(Seq<char>, Node)>,
    targets: Seq<(Seq<char>, Node)>,
    workspace: Node,
    t: int,
    w: int,
    dep: DependencyModel,
)
    requires
        document::first_with_key(fields, "target"@, t) && fields[t].1 == Node::Table(targets) || ((
        forall|k: int| #[trigger]
            document::first_with_key(fields, "target"@, k) ==> !(fields[k].1 is Table))
            && targets.len() == 0),
        document::first_with_key(fields, "workspace"@, w) && fields[w].1 == workspace || ((forall|
            k: int,
        |
            !(#[trigger] document::first_with_key(fields, "workspace"@, k))) && !(
        workspace is Table)),
    ensures
        declarations(Node::Table(fields)).contains(dep) <==> {
            ||| declares(Node::Table(fields), "dependencies"@, dep)
            ||| declares(Node::Table(fields), "dev-dependencies"@, dep)
            ||| declares(Node::Table(fields), "build-dependencies"@, dep)
            ||| exists|i: int|
                0 <= i < targets.len() && {
                    ||| declares((#[trigger] targets[i]).1, "dependencies"@, dep)
                    ||| declares(targets[i].1, "dev-dependencies"@, dep)
                    ||| declares(targets[i].1, "build-dependencies"@, dep)
                }
            ||| declares(workspace, "dependencies"@, dep)
        },
{
    let manifest = Node::Table(fields);
    document::lemma_first_with_key(fields, "target"@);
    document::lemma_first_with_key(fields, "workspace"@);
    let own = deps_in_sections(manifest);
    let of_targets = match manifest.get_table("target"@) {
        Some(found) => deps_of_targets(found),
        None => Seq::empty(),
    };
    let of_workspace = match manifest.get("workspace"@) {
        Some(found) => deps_under(found, "dependencies"@),
        None => Seq::empty(),
    };
    lemma_contains_sum(own + of_targets, of_workspace, dep);
    lemma_contains_sum(own, of_targets, dep);
    lemma_declares_in_a_section(manifest, dep);
    lemma_declares_in_a_target(targets, dep);
    lemma_lists_table(workspace, "dependencies"@);
    assert(of_targets.contains(dep) <==> exists|i: int|
        0 <= i < targets.len() && declares_in_a_section((#[trigger] targets[i]).1, dep));
    assert(of_workspace.contains(dep) <==> declares(workspace, "dependencies"@, dep));
}

/// The manifest's own sections count before those of its targets, and these before the
/// workspace, whichever of them there are.
pub proof fn own_sections_count_before_targets_and_workspace(manifest: Node)
    ensures
        exists|targets: Seq<DependencyModel>, ws: Seq<DependencyModel>|
            {
                &&& declarations(manifest) == #[trigger] (deps_in_sections(manifest) + targets + ws)
                &&& forall|t: int| #[trigger]
                    has_table(manifest, "target"@, t) ==> targets == deps_of_targets(
                        table_at(manifest, t),
                    )
                &&& (forall|t: int| !(#[trigger] has_table(manifest, "target"@, t)))
                    ==> targets.len() == 0
                &&& forall|w: int|
                    manifest is Table && #[trigger] document::first_with_key(
                        manifest->Table_0,
                        "workspace"@,
                        w,
                    ) ==> lists_table(ws, manifest->Table_0[w].1, "dependencies"@)
                &&& (forall|w: int|
                    !(manifest is Table && #[trigger] document::first_with_key(
                        manifest->Table_0,
                        "workspace"@,
                        w,
                    ))) ==> ws.len() == 0
            },
{
    let fields = manifest->Table_0;
    if manifest is Table {
        document::lemma_first_with_key(fields, "target"@);
        document::lemma_first_with_key(fields, "workspace"@);
    }
    let own = deps_in_sections(manifest);
    let targets = match manifest.get_table("target"@) {
        Some(found) => deps_of_targets(found),
        None => Seq::empty(),
    };
    let ws = match manifest.get("workspace"@) {
        Some(found) => deps_under(found, "dependencies"@),
        None => Seq::empty(),
    };
    if manifest.get_table("target"@) is Some {
        let t = choose|t: int| #[trigger]
            document::first_with_key(fields, "target"@, t) && fields[t].1 == document::lookup(
                fields,
                "target"@,
            )->0;
        assert(has_table(manifest, "target"@, t));
    }
    assert forall|t: int| #[trigger] has_table(manifest, "target"@, t) implies targets
        == deps_of_targets(table_at(manifest, t)) by {
        assert(document::lookup(fields, "target"@) == Some(fields[t].1));
    }
    assert forall|w: int|
        manifest is Table && #[trigger] document::first_with_key(
            fields,
            "workspace"@,
            w,
        ) implies lists_table(ws, fields[w].1, "dependencies"@) by {
        lemma_lists_table(fields[w].1, "dependencies"@);
    }
    assert(declarations(manifest) == own + targets + ws);
}

/// What is no table declares nothing.
pub proof fn what_is_no_table_declares_nothing(manifest: Node)
    requires
        !(manifest is Table),
    ensures
        declarations(manifest).len() == 0,
{
}

/// Every package of a row that merges declarations is what its first declaration with a directory
/// or a git repository says, or, where all name a requirement, what its first declaration says.
/// Every declared package is there, and the rows stand in order of name.
pub proof fn the_first_local_declaration_or_else_the_first_counts(
    merged: Seq<DependencyModel>,
    deps: Seq<DependencyModel>,
)
    requires
        is_merge_of(merged, deps),
    ensures
        forall|i: int|
            0 <= i < merged.len() ==> exists|j: int|
                {
                    &&& 0 <= j < deps.len()
                    &&& (#[trigger] deps[j]).name == (#[trigger] merged[i]).name
                    &&& deps[j].kind == merged[i].kind
                    &&& deps[j].kind is Registry ==> forall|m: int|
                        0 <= m < deps.len() && (#[trigger] deps[m]).name == merged[i].name ==> m
                            >= j && deps[m].kind is Registry
                    &&& !(deps[j].kind is Registry) ==> forall|m: int|
                        0 <= m < j && (#[trigger] deps[m]).name == merged[i].name
                            ==> deps[m].kind is Registry
                },
        forall|j: int|
            0 <= j < deps.len() ==> exists|i: int|
                0 <= i < merged.len() && (#[trigger] merged[i]).name == (#[trigger] deps[j]).name,
        forall|i: int, j: int|
            0 <= i < j < merged.len() ==> text::precedes(
                (#[trigger] merged[i]).name,
                (#[trigger] merged[j]).name,
            ),
{
    assert forall|i: int| 0 <= i < merged.len() implies exists|j: int|
        {
            &&& 0 <= j < deps.len()
            &&& (#[trigger] deps[j]).name == (#[trigger] merged[i]).name
            &&& deps[j].kind == merged[i].kind
            &&& deps[j].kind is Registry ==> forall|m: int|
                0 <= m < deps.len() && (#[trigger] deps[m]).name == merged[i].name ==> m >= j
                    && deps[m].kind is Registry
            &&& !(deps[j].kind is Registry) ==> forall|m: int|
                0 <= m < j && (#[trigger] deps[m]).name == merged[i].name
                    ==> deps[m].kind is Registry
        } by {
        let name = merged[i].name;
        let local = |d: DependencyModel| d.name == name && !(d.kind is Registry);
        let any = |d: DependencyModel| d.name == name;
        assert(first_local(deps, name) == rows::first_such(deps, local));
        assert(first_named(deps, name) == rows::first_such(deps, any));
        rows::lemma_first_where_found(deps, local);
        rows::lemma_first_where_found(deps, any);
        let a = rows::first_where(deps, local);
        let b = rows::first_where(deps, any);
        if a < deps.len() {
            assert forall|m: int| 0 <= m < a && (#[trigger] deps[m]).name == name implies deps[m].kind
                is Registry by {
                assert(!local(deps[m]));
            }
            assert(deps[a].name == merged[i].name);
        } else {
            assert forall|m: int| 0 <= m < deps.len() && (#[trigger] deps[m]).name == name implies m
                >= b && deps[m].kind is Registry by {
                assert(!local(deps[m]));
                if m < b {
                    assert(!any(deps[m]));
                }
            }
            assert(deps[b].name == merged[i].name);
        }
    }
    assert forall|j: int| 0 <= j < deps.len() implies exists|i: int|
        0 <= i < merged.len() && (#[trigger] merged[i]).name == (#[trigger] deps[j]).name by {
        assert(has_name(merged, deps[j].name));
    }
}

/// Dependencies are seen as they are, each in its place.
pub proof fn dependencies_are_seen_whole(deps: Seq<Dependency>)
    ensures
        deps_view(deps).len() == deps.len(),
        forall|i: int|
            0 <= i < deps.len() ==> (#[trigger] deps_view(deps)[i]).name == deps[i].name@
                && deps_view(deps)[i].kind == deps[i].kind@,
{
}

/// A dependency is seen whole.
pub proof fn a_dependency_is_seen_whole(dep: Dependency)
    ensures
        dep@.name == dep.name@,
        dep.kind is Path <==> dep@.kind is Path,
        dep.kind is Git <==> dep@.kind is Git,
        dep.kind matches DepKind::Registry { req, pinned } ==> dep@.kind == (KindModel::Registry {
            req: req@,
            pinned,
        }),
{
}

} // verus!
