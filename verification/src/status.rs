//! How a dependency stands against the minimum age.

use crate::manifest;
use crate::manifest::{DepKind, Dependency};
use crate::rows;
use crate::text;
use crate::text::contains_text;
use crate::time;
use crate::time::{Instant, Timestamp};
use crate::versions;
use crate::versions::{LookupError, LookupErrorModel, StableVersion, VersionModel};
use vstd::prelude::*;

verus! {

/// What is known of a dependency from outside: the stable versions that the registry lists,
/// newest first, and the versions at which the lock file holds it.
#[derive(Debug)]
pub struct Facts {
    pub versions: Result<Vec<StableVersion>, LookupError>,
    pub locked: Vec<String>,
}

/// The mathematical value of [`Facts`].
pub struct FactsModel {
    pub versions: Result<Seq<VersionModel>, LookupErrorModel>,
    pub locked: Seq<Seq<char>>,
}

impl View for Facts {
    type V = FactsModel;

    open spec fn view(&self) -> FactsModel {
        FactsModel {
            versions: match self.versions {
                Ok(list) => Ok(versions::versions_view(list@)),
                Err(error) => Err(error@),
            },
            locked: text::texts_view(self.locked@),
        }
    }
}

/// Why a dependency is left alone.
#[derive(Debug)]
pub enum SkipReason {
    Path,
    Git,
    /// The requirement is an `=` pin.
    Pinned(String),
    /// The registry lists no stable version.
    NoStable,
    /// No stable version is old enough.
    NoEligible { newest_age: i64 },
    /// The lock file does not hold it.
    NotLocked,
    /// The registry did not answer.
    LookupFailed(String),
}

/// How a dependency stands against the minimum age.
#[derive(Debug)]
pub enum DepStatus {
    /// The lock file holds it, but at no version that is old enough, and the registry has one
    /// that is.
    Fresh {
        locked_version: String,
        locked_age: Option<i64>,
        locked_published: Option<Timestamp>,
        eligible_top: String,
        eligible_top_age: i64,
        eligible_top_published: Timestamp,
    },
    /// The lock file holds a version that is old enough.
    Aged { version: String, age: i64, published: Timestamp },
    /// The dependency is left alone.
    Skipped(SkipReason),
}

/// The mathematical value of a [`SkipReason`].
pub enum SkipModel {
    Path,
    Git,
    Pinned(Seq<char>),
    NoStable,
    NoEligible { newest_age: int },
    NotLocked,
    LookupFailed(Seq<char>),
}

/// The mathematical value of a [`DepStatus`].
pub enum StatusModel {
    Fresh {
        locked_version: Seq<char>,
        locked_age: Option<int>,
        locked_published: Option<Instant>,
        eligible_top: Seq<char>,
        eligible_top_age: int,
        eligible_top_published: Instant,
    },
    Aged { version: Seq<char>, age: int, published: Instant },
    Skipped(SkipModel),
}

impl View for SkipReason {
    type V = SkipModel;

    open spec fn view(&self) -> SkipModel {
        match self {
            SkipReason::Path => SkipModel::Path,
            SkipReason::Git => SkipModel::Git,
            SkipReason::Pinned(req) => SkipModel::Pinned(req@),
            SkipReason::NoStable => SkipModel::NoStable,
            SkipReason::NoEligible { newest_age } => SkipModel::NoEligible {
                newest_age: *newest_age as int,
            },
            SkipReason::NotLocked => SkipModel::NotLocked,
            SkipReason::LookupFailed(message) => SkipModel::LookupFailed(message@),
        }
    }
}

impl View for DepStatus {
    type V = StatusModel;

    open spec fn view(&self) -> StatusModel {
        match self {
            DepStatus::Fresh {
                locked_version,
                locked_age,
                locked_published,
                eligible_top,
                eligible_top_age,
                eligible_top_published,
            } => StatusModel::Fresh {
                locked_version: locked_version@,
                locked_age: match locked_age {
                    Some(age) => Some(*age as int),
                    None => None,
                },
                locked_published: match locked_published {
                    Some(published) => Some(published@),
                    None => None,
                },
                eligible_top: eligible_top@,
                eligible_top_age: *eligible_top_age as int,
                eligible_top_published: eligible_top_published@,
            },
            DepStatus::Aged { version, age, published } => StatusModel::Aged {
                version: version@,
                age: *age as int,
                published: published@,
            },
            DepStatus::Skipped(reason) => StatusModel::Skipped(reason@),
        }
    }
}

/// The whole days since a version was published.
pub open spec fn age_of(version: VersionModel, now: Instant) -> int {
    time::whole_days_since(now, version.created_at)
}

/// The versions that are old enough, in the order of the list.
pub open spec fn eligible(versions: Seq<VersionModel>, min_age: int, now: Instant) -> Seq<
    VersionModel,
> {
    versions.filter(|v: VersionModel| age_of(v, now) >= min_age)
}

/// The first of some versions that the lock file holds.
pub open spec fn first_locked(versions: Seq<VersionModel>, locked: Seq<Seq<char>>) -> Option<
    VersionModel,
> {
    rows::first_such(versions, |v: VersionModel| locked.contains(v.num))
}

/// Why a dependency is left alone whatever the registry and the lock file hold, if it is.
pub open spec fn settled_skip(dep: manifest::DependencyModel) -> Option<SkipModel> {
    match dep.kind {
        manifest::KindModel::Path => Some(SkipModel::Path),
        manifest::KindModel::Git => Some(SkipModel::Git),
        manifest::KindModel::Registry { req, pinned } => if pinned {
            Some(SkipModel::Pinned(req))
        } else {
            None
        },
    }
}

/// How a dependency stands that the lock file holds at no version that is old enough, given the
/// newest version that is. The lock file's first version stands for it; its age is not known
/// where the registry does not list it.
pub open spec fn fresh_status(
    versions: Seq<VersionModel>,
    locked: Seq<Seq<char>>,
    top: VersionModel,
    now: Instant,
) -> StatusModel
    recommends
        locked.len() > 0,
{
    let held = rows::first_such(versions, |v: VersionModel| v.num == locked[0]);
    StatusModel::Fresh {
        locked_version: locked[0],
        locked_age: match held {
            Some(v) => Some(age_of(v, now)),
            None => None,
        },
        locked_published: match held {
            Some(v) => Some(v.created_at),
            None => None,
        },
        eligible_top: top.num,
        eligible_top_age: age_of(top, now),
        eligible_top_published: top.created_at,
    }
}

/// How a dependency stands against the minimum age.
pub open spec fn status_of(
    dep: manifest::DependencyModel,
    facts: FactsModel,
    min_age: int,
    now: Instant,
) -> StatusModel {
    match settled_skip(dep) {
        Some(reason) => StatusModel::Skipped(reason),
        None => match facts.versions {
            Err(error) => StatusModel::Skipped(SkipModel::LookupFailed(error.message())),
            Ok(versions) => {
                let old = eligible(versions, min_age, now);
                if versions.len() == 0 {
                    StatusModel::Skipped(SkipModel::NoStable)
                } else if old.len() == 0 {
                    StatusModel::Skipped(
                        SkipModel::NoEligible { newest_age: age_of(versions[0], now) },
                    )
                } else {
                    match first_locked(old, facts.locked) {
                        Some(v) => StatusModel::Aged {
                            version: v.num,
                            age: age_of(v, now),
                            published: v.created_at,
                        },
                        None => if facts.locked.len() == 0 {
                            StatusModel::Skipped(SkipModel::NotLocked)
                        } else {
                            fresh_status(versions, facts.locked, old[0], now)
                        },
                    }
                }
            },
        },
    }
}

/// The versions at some places of a list.
pub open spec fn picked(versions: Seq<VersionModel>, places: Seq<usize>) -> Seq<VersionModel> {
    places.map_values(|k: usize| versions[k as int])
}

/// Why a dependency is left alone without asking the registry, if it is.
pub fn skip_without_lookup(dep: &Dependency) -> (reason: Option<SkipReason>)
    ensures
        match reason {
            Some(r) => settled_skip(dep@) == Some(r@),
            None => settled_skip(dep@) is None,
        },
{
    match &dep.kind {
        DepKind::Path => Some(SkipReason::Path),
        DepKind::Git => Some(SkipReason::Git),
        DepKind::Registry { req, pinned } => if *pinned {
            Some(SkipReason::Pinned(req.clone()))
        } else {
            None
        },
    }
}

/// The places of the versions that are old enough.
pub fn eligible_places(versions: &Vec<StableVersion>, min_age: i64, now: &Timestamp) -> (places:
    Vec<usize>)
    ensures
        forall|i: int| 0 <= i < places@.len() ==> #[trigger] places@[i] < versions@.len(),
        picked(versions::versions_view(versions@), places@) == eligible(
            versions::versions_view(versions@),
            min_age as int,
            now@,
        ),
{
    let ghost all = versions::versions_view(versions@);
    let mut places: Vec<usize> = Vec::new();
    let mut i: usize = 0;
    proof {
        reveal(Seq::filter);
        assert(picked(all, places@) == eligible(all.take(0), min_age as int, now@));
    }
    while i < versions.len()
        invariant
            i <= versions.len(),
            all == versions::versions_view(versions@),
            forall|j: int| 0 <= j < places@.len() ==> #[trigger] places@[j] < versions@.len(),
            picked(all, places@) == eligible(all.take(i as int), min_age as int, now@),
        decreases versions.len() - i,
    {
        let ghost before = places@;
        proof {
            reveal(Seq::filter);
            assert(all.take(i + 1).drop_last() == all.take(i as int));
            assert(all.take(i + 1).last() == versions@[i as int]@);
        }
        if now.days_since(&versions[i].created_at) >= min_age {
            places.push(i);
            assert(picked(all, places@) == picked(all, before).push(all[i as int]));
        }
        i += 1;
    }
    assert(all.take(i as int) == all);
    places
}

/// The first of the versions at `places` that the lock file holds.
pub fn locked_place(versions: &Vec<StableVersion>, places: &Vec<usize>, locked: &Vec<String>) -> (
place: Option<usize>)
    requires
        forall|i: int| 0 <= i < places@.len() ==> #[trigger] places@[i] < versions@.len(),
    ensures
        match place {
            Some(k) => k < versions@.len() && first_locked(
                picked(versions::versions_view(versions@), places@),
                text::texts_view(locked@),
            ) == Some(versions@[k as int]@),
            None => first_locked(
                picked(versions::versions_view(versions@), places@),
                text::texts_view(locked@),
            ) is None,
        },
{
    let ghost old = picked(versions::versions_view(versions@), places@);
    let ghost held = text::texts_view(locked@);
    let ghost wanted = |v: VersionModel| held.contains(v.num);
    let mut i: usize = 0;
    while i < places.len()
        invariant
            i <= places.len(),
            forall|j: int| 0 <= j < places@.len() ==> #[trigger] places@[j] < versions@.len(),
            old == picked(versions::versions_view(versions@), places@),
            held == text::texts_view(locked@),
            wanted == (|v: VersionModel| held.contains(v.num)),
            forall|j: int| 0 <= j < i ==> !wanted(#[trigger] old[j]),
        decreases places.len() - i,
    {
        let k: usize = places[i];
        assert(old[i as int] == versions@[k as int]@);
        if contains_text(locked, &versions[k].num) {
            proof {
                rows::lemma_first_where(old, wanted, i as int);
            }
            return Some(k);
        }
        i += 1;
    }
    proof {
        rows::lemma_first_where(old, wanted, i as int);
    }
    None
}

/// The version with the given number.
fn place_of(versions: &Vec<StableVersion>, num: &String) -> (place: Option<usize>)
    ensures
        match place {
            Some(k) => k < versions@.len() && rows::first_such(
                versions::versions_view(versions@),
                |v: VersionModel| v.num == num@,
            ) == Some(versions@[k as int]@),
            None => rows::first_such(
                versions::versions_view(versions@),
                |v: VersionModel| v.num == num@,
            ) is None,
        },
{
    let ghost all = versions::versions_view(versions@);
    let ghost wanted = |v: VersionModel| v.num == num@;
    let mut i: usize = 0;
    while i < versions.len()
        invariant
            i <= versions.len(),
            all == versions::versions_view(versions@),
            wanted == (|v: VersionModel| v.num == num@),
            forall|j: int| 0 <= j < i ==> !wanted(#[trigger] all[j]),
        decreases versions.len() - i,
    {
        assert(all[i as int] == versions@[i as int]@);
        if versions[i].num == *num {
            proof {
                rows::lemma_first_where(all, wanted, i as int);
            }
            return Some(i);
        }
        i += 1;
    }
    proof {
        rows::lemma_first_where(all, wanted, i as int);
    }
    None
}

/// Decides how a dependency stands against the minimum age. What `facts` hold counts only
/// where [`skip_without_lookup`] finds no reason.
pub fn classify_dep(dep: &Dependency, facts: &Facts, min_age: i64, now: &Timestamp) -> (status:
    DepStatus)
    ensures
        status@ == status_of(dep@, facts@, min_age as int, now@),
{
    if let Some(reason) = skip_without_lookup(dep) {
        return DepStatus::Skipped(reason);
    }
    let listed = match &facts.versions {
        Ok(list) => list,
        Err(error) => return DepStatus::Skipped(SkipReason::LookupFailed(error.message())),
    };
    if listed.len() == 0 {
        return DepStatus::Skipped(SkipReason::NoStable);
    }
    let ghost all = versions::versions_view(listed@);
    assert(all[0] == listed@[0]@);
    let newest_age: i64 = now.days_since(&listed[0].created_at);
    let places: Vec<usize> = eligible_places(listed, min_age, now);
    if places.len() == 0 {
        return DepStatus::Skipped(SkipReason::NoEligible { newest_age });
    }
    if let Some(k) = locked_place(listed, &places, &facts.locked) {
        return DepStatus::Aged {
            version: listed[k].num.clone(),
            age: now.days_since(&listed[k].created_at),
            published: listed[k].created_at,
        };
    }
    if facts.locked.len() == 0 {
        return DepStatus::Skipped(SkipReason::NotLocked);
    }
    let top: usize = places[0];
    assert(picked(all, places@)[0] == listed@[top as int]@);
    let first: &String = &facts.locked[0];
    let ghost held = text::texts_view(facts.locked@);
    assert(held[0] == first@);
    assert((|v: VersionModel| v.num == first@) == (|v: VersionModel| v.num == held[0]));
    let (locked_age, locked_published): (Option<i64>, Option<Timestamp>) = match place_of(
        listed,
        first,
    ) {
        Some(k) => (Some(now.days_since(&listed[k].created_at)), Some(listed[k].created_at)),
        None => (None, None),
    };
    DepStatus::Fresh {
        locked_version: first.clone(),
        locked_age,
        locked_published,
        eligible_top: listed[top].num.clone(),
        eligible_top_age: now.days_since(&listed[top].created_at),
        eligible_top_published: listed[top].created_at,
    }
}

/// A path, git or pinned dependency is left alone whatever the registry and the lock file
/// hold.
pub proof fn settled_dependencies_are_left_alone(
    dep: manifest::DependencyModel,
    facts: FactsModel,
    min_age: int,
    now: Instant,
)
    requires
        !(dep.kind is Registry) || dep.kind->pinned,
    ensures
        status_of(dep, facts, min_age, now) == StatusModel::Skipped(
            match dep.kind {
                manifest::KindModel::Path => SkipModel::Path,
                manifest::KindModel::Git => SkipModel::Git,
                manifest::KindModel::Registry { req, .. } => SkipModel::Pinned(req),
            },
        ),
{
}

/// A dependency counts as aged exactly if it is looked up and the lock file holds one of the
/// versions that are old enough; the version it is reported with is such a one.
pub proof fn aged_means_locked_and_old_enough(
    dep: manifest::DependencyModel,
    facts: FactsModel,
    min_age: int,
    now: Instant,
)
    requires
        settled_skip(dep) is None,
        facts.versions is Ok,
    ensures
        status_of(dep, facts, min_age, now) is Aged <==> exists|v: VersionModel|
            {
                &&& #[trigger] facts.versions->Ok_0.contains(v)
                &&& facts.locked.contains(v.num)
                &&& age_of(v, now) >= min_age
            },
        status_of(dep, facts, min_age, now) matches StatusModel::Aged { version, age, published }
            ==> {
            &&& facts.versions->Ok_0.contains(VersionModel { num: version, created_at: published })
            &&& facts.locked.contains(version)
            &&& age == time::whole_days_since(now, published)
            &&& age >= min_age
        },
{
    let listed = facts.versions->Ok_0;
    let old = eligible(listed, min_age, now);
    let old_enough = |v: VersionModel| age_of(v, now) >= min_age;
    let held = |v: VersionModel| facts.locked.contains(v.num);
    rows::lemma_first_such_found(old, held);
    match first_locked(old, facts.locked) {
        Some(v) => {
            lemma_eligible_member(listed, min_age, now, v);
            assert(v == (VersionModel { num: v.num, created_at: v.created_at }));
        },
        None => {
            assert forall|v: VersionModel| #[trigger]
                listed.contains(v) && age_of(v, now) >= min_age implies !facts.locked.contains(
                v.num,
            ) by {
                let k = choose|k: int| 0 <= k < listed.len() && listed[k] == v;
                listed.lemma_filter_contains(old_enough, k);
                let j = choose|j: int| 0 <= j < old.len() && old[j] == v;
                assert(!held(old[j]));
            }
        },
    }
}

proof fn lemma_eligible_member(
    versions: Seq<VersionModel>,
    min_age: int,
    now: Instant,
    v: VersionModel,
)
    requires
        eligible(versions, min_age, now).contains(v),
    ensures
        versions.contains(v),
        age_of(v, now) >= min_age,
{
    let old_enough = |v: VersionModel| age_of(v, now) >= min_age;
    let old = versions.filter(old_enough);
    let k = choose|k: int| 0 <= k < old.len() && old[k] == v;
    versions.lemma_filter_pred(old_enough, k);
    versions.lemma_filter_contains_rev(old_enough, v);
}

proof fn lemma_eligible_exists(versions: Seq<VersionModel>, min_age: int, now: Instant)
    ensures
        eligible(versions, min_age, now).len() > 0 <==> exists|v: VersionModel| #[trigger]
            versions.contains(v) && age_of(v, now) >= min_age,
{
    let old = eligible(versions, min_age, now);
    let old_enough = |v: VersionModel| age_of(v, now) >= min_age;
    if old.len() > 0 {
        assert(old.contains(old[0]));
        lemma_eligible_member(versions, min_age, now, old[0]);
    } else {
        assert forall|v: VersionModel| #[trigger] versions.contains(v) implies age_of(v, now)
            < min_age by {
            let k = choose|k: int| 0 <= k < versions.len() && versions[k] == v;
            if age_of(v, now) >= min_age {
                versions.lemma_filter_contains(old_enough, k);
            }
        }
    }
}

/// A dependency counts as too fresh exactly if it is looked up, the lock file holds it, the
/// registry lists a version that is old enough, and the lock file holds none that is. The
/// version it would go to is old enough.
pub proof fn fresh_means_a_replacement_exists(
    dep: manifest::DependencyModel,
    facts: FactsModel,
    min_age: int,
    now: Instant,
)
    ensures
        status_of(dep, facts, min_age, now) is Fresh <==> {
            &&& settled_skip(dep) is None
            &&& facts.versions is Ok
            &&& facts.locked.len() > 0
            &&& exists|v: VersionModel| #[trigger]
                facts.versions->Ok_0.contains(v) && age_of(v, now) >= min_age
            &&& forall|v: VersionModel| #[trigger]
                facts.versions->Ok_0.contains(v) && age_of(v, now) >= min_age
                    ==> !facts.locked.contains(v.num)
        },
        status_of(dep, facts, min_age, now) matches StatusModel::Fresh {
            eligible_top,
            eligible_top_age,
            eligible_top_published,
            ..
        } ==> {
            &&& facts.versions->Ok_0.contains(
                VersionModel { num: eligible_top, created_at: eligible_top_published },
            )
            &&& eligible_top_age == time::whole_days_since(now, eligible_top_published)
            &&& eligible_top_age >= min_age
        },
{
    if settled_skip(dep) is None && facts.versions is Ok {
        aged_means_locked_and_old_enough(dep, facts, min_age, now);
        let listed = facts.versions->Ok_0;
        let old = eligible(listed, min_age, now);
        lemma_eligible_exists(listed, min_age, now);
        if old.len() > 0 {
            assert(old.contains(old[0]));
            lemma_eligible_member(listed, min_age, now, old[0]);
            assert(old[0] == (VersionModel { num: old[0].num, created_at: old[0].created_at }));
        }
    }
}

/// A dependency that counts as too fresh is locked, at a version that is not old enough where
/// its age is known.
pub proof fn fresh_means_locked_and_not_old_enough(
    dep: manifest::DependencyModel,
    facts: FactsModel,
    min_age: int,
    now: Instant,
)
    ensures
        status_of(dep, facts, min_age, now) matches StatusModel::Fresh {
            locked_version,
            locked_age,
            ..
        } ==> {
            &&& facts.locked.contains(locked_version)
            &&& locked_age matches Some(age) ==> age < min_age
        },
{
    if status_of(dep, facts, min_age, now) is Fresh {
        let listed = facts.versions->Ok_0;
        let first = facts.locked[0];
        fresh_means_a_replacement_exists(dep, facts, min_age, now);
        rows::lemma_first_such_found(listed, |v: VersionModel| v.num == first);
        assert(facts.locked.contains(first));
    }
}

/// A dependency that the lock file does not hold is left alone.
pub proof fn what_is_not_locked_is_left_alone(
    dep: manifest::DependencyModel,
    facts: FactsModel,
    min_age: int,
    now: Instant,
)
    requires
        facts.locked.len() == 0,
    ensures
        status_of(dep, facts, min_age, now) is Skipped,
{
    if settled_skip(dep) is None && facts.versions is Ok {
        aged_means_locked_and_old_enough(dep, facts, min_age, now);
    }
}

/// The versions at the places before `k` are too young.
pub open spec fn first_old_enough(
    listed: Seq<VersionModel>,
    min_age: int,
    now: Instant,
    k: int,
) -> bool {
    &&& 0 <= k < listed.len()
    &&& time::whole_days_since(now, listed[k].created_at) >= min_age
    &&& forall|j: int|
        0 <= j < k ==> time::whole_days_since(now, (#[trigger] listed[j]).created_at) < min_age
}

/// The version at `k` is old enough and locked, and none before it is both.
pub open spec fn first_old_enough_and_locked(
    listed: Seq<VersionModel>,
    locked: Seq<Seq<char>>,
    min_age: int,
    now: Instant,
    k: int,
) -> bool {
    &&& 0 <= k < listed.len()
    &&& time::whole_days_since(now, listed[k].created_at) >= min_age
    &&& locked.contains(listed[k].num)
    &&& forall|j: int|
        0 <= j < k ==> time::whole_days_since(now, (#[trigger] listed[j]).created_at) < min_age
            || !locked.contains(listed[j].num)
}

/// The version at `k` is the first with the given number.
pub open spec fn first_numbered(listed: Seq<VersionModel>, num: Seq<char>, k: int) -> bool {
    &&& 0 <= k < listed.len()
    &&& listed[k].num == num
    &&& forall|j: int| 0 <= j < k ==> (#[trigger] listed[j]).num != num
}

proof fn lemma_eligible_top(listed: Seq<VersionModel>, min_age: int, now: Instant)
    ensures
        eligible(listed, min_age, now).len() > 0 ==> exists|k: int| #[trigger]
            first_old_enough(listed, min_age, now, k) && listed[k] == eligible(
                listed,
                min_age,
                now,
            )[0],
        eligible(listed, min_age, now).len() == 0 ==> forall|k: int|
            0 <= k < listed.len() ==> time::whole_days_since(
                now,
                (#[trigger] listed[k]).created_at,
            ) < min_age,
{
    let old_enough = |v: VersionModel| age_of(v, now) >= min_age;
    let any = |v: VersionModel| true;
    let both = |v: VersionModel| old_enough(v) && any(v);
    let old = eligible(listed, min_age, now);
    rows::lemma_first_of_filter(listed, old_enough, any);
    rows::lemma_first_where_found(old, any);
    rows::lemma_first_where_found(listed, both);
    let k = rows::first_where(listed, both);
    assert(rows::first_such(listed, both) == rows::first_such(old, any));
    assert forall|j: int| 0 <= j < k implies time::whole_days_since(
        now,
        (#[trigger] listed[j]).created_at,
    ) < min_age by {
        assert(!both(listed[j]));
    }
    if old.len() > 0 {
        assert(rows::first_where(old, any) == 0);
        assert(first_old_enough(listed, min_age, now, k));
    }
}

proof fn lemma_eligible_locked(
    listed: Seq<VersionModel>,
    locked: Seq<Seq<char>>,
    min_age: int,
    now: Instant,
)
    ensures
        match first_locked(eligible(listed, min_age, now), locked) {
            Some(v) => exists|k: int| #[trigger]
                first_old_enough_and_locked(listed, locked, min_age, now, k) && listed[k] == v,
            None => forall|k: int|
                0 <= k < listed.len() ==> time::whole_days_since(
                    now,
                    (#[trigger] listed[k]).created_at,
                ) < min_age || !locked.contains(listed[k].num),
        },
{
    let old_enough = |v: VersionModel| age_of(v, now) >= min_age;
    let held = |v: VersionModel| locked.contains(v.num);
    let both = |v: VersionModel| old_enough(v) && held(v);
    rows::lemma_first_of_filter(listed, old_enough, held);
    rows::lemma_first_where_found(listed, both);
    let k = rows::first_where(listed, both);
    assert forall|j: int| 0 <= j < k implies time::whole_days_since(
        now,
        (#[trigger] listed[j]).created_at,
    ) < min_age || !locked.contains(listed[j].num) by {
        assert(!both(listed[j]));
    }
    if k < listed.len() {
        assert(first_old_enough_and_locked(listed, locked, min_age, now, k));
    }
}

/// A dependency that counts as too fresh would go to the newest version that is old enough: no
/// version that stands before it in the list is.
pub proof fn a_fresh_dependency_would_go_to_the_newest_aged_version(
    dep: manifest::DependencyModel,
    facts: FactsModel,
    min_age: int,
    now: Instant,
)
    ensures
        status_of(dep, facts, min_age, now) matches StatusModel::Fresh {
            eligible_top,
            eligible_top_age,
            eligible_top_published,
            ..
        } ==> exists|k: int|
            {
                &&& #[trigger] first_old_enough(facts.versions->Ok_0, min_age, now, k)
                &&& facts.versions->Ok_0[k].num == eligible_top
                &&& facts.versions->Ok_0[k].created_at == eligible_top_published
                &&& time::whole_days_since(now, facts.versions->Ok_0[k].created_at)
                    == eligible_top_age
            },
{
    if status_of(dep, facts, min_age, now) is Fresh {
        lemma_eligible_top(facts.versions->Ok_0, min_age, now);
    }
}

/// A dependency that counts as too fresh is reported with the first version that is locked, and
/// with the age and the publication of that version where it is listed.
pub proof fn a_fresh_dependency_is_told_by_its_first_lock_entry(
    dep: manifest::DependencyModel,
    facts: FactsModel,
    min_age: int,
    now: Instant,
)
    ensures
        status_of(dep, facts, min_age, now) matches StatusModel::Fresh {
            locked_version,
            locked_age,
            locked_published,
            ..
        } ==> {
            &&& facts.locked.len() > 0
            &&& locked_version == facts.locked[0]
            &&& forall|k: int| #[trigger]
                first_numbered(facts.versions->Ok_0, facts.locked[0], k) ==> locked_age == Some(
                    time::whole_days_since(now, facts.versions->Ok_0[k].created_at),
                ) && locked_published == Some(facts.versions->Ok_0[k].created_at)
            &&& (forall|k: int|
                0 <= k < facts.versions->Ok_0.len() ==> (#[trigger] facts.versions->Ok_0[k]).num
                    != facts.locked[0]) ==> locked_age is None && locked_published is None
        },
{
    if status_of(dep, facts, min_age, now) is Fresh {
        let listed = facts.versions->Ok_0;
        let first = facts.locked[0];
        let numbered = |v: VersionModel| v.num == facts.locked[0];
        assert forall|k: int| #[trigger] first_numbered(listed, first, k) implies rows::first_such(
            listed,
            numbered,
        ) == Some(listed[k]) by {
            assert forall|j: int| 0 <= j < k implies !numbered(#[trigger] listed[j]) by {}
            rows::lemma_first_where(listed, numbered, k);
        }
        rows::lemma_first_such_found(listed, numbered);
    }
}

/// A dependency that counts as aged is reported with the newest version that is both old enough
/// and locked.
pub proof fn an_aged_dependency_is_told_by_its_newest_aged_lock_entry(
    dep: manifest::DependencyModel,
    facts: FactsModel,
    min_age: int,
    now: Instant,
)
    ensures
        status_of(dep, facts, min_age, now) matches StatusModel::Aged { version, age, published }
            ==> exists|k: int|
            {
                &&& #[trigger] first_old_enough_and_locked(
                    facts.versions->Ok_0,
                    facts.locked,
                    min_age,
                    now,
                    k,
                )
                &&& facts.versions->Ok_0[k].num == version
                &&& facts.versions->Ok_0[k].created_at == published
                &&& time::whole_days_since(now, published) == age
            },
{
    if status_of(dep, facts, min_age, now) is Aged {
        lemma_eligible_locked(facts.versions->Ok_0, facts.locked, min_age, now);
    }
}

/// Of a dependency that is looked up, the facts decide in this order: that the lookup failed,
/// that nothing is listed, that nothing listed is old enough, that something locked is, that
/// nothing is locked, and else it is too fresh.
pub proof fn the_facts_decide_in_order(
    dep: manifest::DependencyModel,
    facts: FactsModel,
    min_age: int,
    now: Instant,
)
    requires
        dep.kind is Registry,
        !dep.kind->pinned,
    ensures
        facts.versions matches Err(error) ==> status_of(dep, facts, min_age, now)
            == StatusModel::Skipped(SkipModel::LookupFailed(error.message())),
        facts.versions matches Ok(listed) ==> {
            let status = status_of(dep, facts, min_age, now);
            let some_aged = exists|k: int|
                0 <= k < listed.len() && time::whole_days_since(
                    now,
                    (#[trigger] listed[k]).created_at,
                ) >= min_age;
            let some_aged_is_locked = exists|k: int|
                0 <= k < listed.len() && time::whole_days_since(
                    now,
                    (#[trigger] listed[k]).created_at,
                ) >= min_age && facts.locked.contains(listed[k].num);
            &&& listed.len() == 0 <==> status == StatusModel::Skipped(SkipModel::NoStable)
            &&& listed.len() > 0 && !some_aged ==> status == StatusModel::Skipped(
                SkipModel::NoEligible {
                    newest_age: time::whole_days_since(now, listed[0].created_at),
                },
            )
            &&& some_aged_is_locked <==> status is Aged
            &&& some_aged && facts.locked.len() == 0 <==> status == StatusModel::Skipped(
                SkipModel::NotLocked,
            )
            &&& some_aged && !some_aged_is_locked && facts.locked.len() > 0 <==> status is Fresh
        },
{
    if facts.versions is Ok {
        let listed = facts.versions->Ok_0;
        lemma_eligible_top(listed, min_age, now);
        lemma_eligible_locked(listed, facts.locked, min_age, now);
        let old = eligible(listed, min_age, now);
        if old.len() > 0 {
            let k = choose|k: int| #[trigger]
                first_old_enough(listed, min_age, now, k) && listed[k] == old[0];
            assert(time::whole_days_since(now, listed[k].created_at) >= min_age);
        }
        match first_locked(old, facts.locked) {
            Some(v) => {
                let k = choose|k: int| #[trigger]
                    first_old_enough_and_locked(listed, facts.locked, min_age, now, k)
                        && listed[k] == v;
                assert(time::whole_days_since(now, listed[k].created_at) >= min_age);
            },
            None => {},
        }
    }
}

/// Facts are seen as they are.
pub proof fn facts_are_seen_whole(facts: Facts)
    ensures
        facts@.locked.len() == facts.locked@.len(),
        forall|i: int|
            0 <= i < facts.locked@.len() ==> #[trigger] facts@.locked[i] == facts.locked@[i]@,
        facts.versions matches Ok(list) ==> facts@.versions is Ok && facts@.versions->Ok_0.len()
            == list@.len() && forall|i: int|
            0 <= i < list@.len() ==> #[trigger] facts@.versions->Ok_0[i] == list@[i]@,
        facts.versions matches Err(error) ==> facts@.versions == Err::<
            Seq<VersionModel>,
            LookupErrorModel,
        >(error@),
{
}

/// The age of a version is the whole days since it was published, and the versions that are old
/// enough are those with at least the minimum age, in the order of the list.
pub proof fn age_is_counted_from_publication(
    listed: Seq<VersionModel>,
    version: VersionModel,
    min_age: int,
    now: Instant,
)
    ensures
        age_of(version, now) == time::whole_days_since(now, version.created_at),
        eligible(listed, min_age, now) == listed.filter(
            |v: VersionModel| time::whole_days_since(now, v.created_at) >= min_age,
        ),
{
    let a = |v: VersionModel| age_of(v, now) >= min_age;
    let b = |v: VersionModel| time::whole_days_since(now, v.created_at) >= min_age;
    assert(a =~= b);
}

/// A dependency is left alone without a lookup exactly if it is a directory, a git repository or
/// pinned, and for that reason.
pub proof fn only_registry_dependencies_without_a_pin_are_looked_up(dep: manifest::DependencyModel)
    ensures
        settled_skip(dep) is None <==> dep.kind is Registry && !dep.kind->pinned,
        dep.kind is Path ==> settled_skip(dep) == Some(SkipModel::Path),
        dep.kind is Git ==> settled_skip(dep) == Some(SkipModel::Git),
        dep.kind is Registry && dep.kind->pinned ==> settled_skip(dep) == Some(
            SkipModel::Pinned(dep.kind->req),
        ),
{
}

/// A status is seen whole.
pub proof fn a_status_is_seen_whole(status: DepStatus, reason: SkipReason)
    ensures
        status matches DepStatus::Fresh {
            locked_version,
            locked_age,
            locked_published,
            eligible_top,
            eligible_top_age,
            eligible_top_published,
        } ==> {
            &&& status@ is Fresh
            &&& status@->locked_version == locked_version@
            &&& locked_age is None <==> status@->locked_age is None
            &&& locked_age is Some ==> status@->locked_age == Some(locked_age->0 as int)
            &&& locked_published is None <==> status@->locked_published is None
            &&& locked_published is Some ==> status@->locked_published == Some(
                locked_published->0@,
            )
            &&& status@->eligible_top == eligible_top@
            &&& status@->eligible_top_age == eligible_top_age
            &&& status@->eligible_top_published == eligible_top_published@
        },
        status matches DepStatus::Aged { version, age, published } ==> status@
            == (StatusModel::Aged { version: version@, age: age as int, published: published@ }),
        status matches DepStatus::Skipped(r) ==> status@ == StatusModel::Skipped(r@),
        reason is Path <==> reason@ is Path,
        reason is Git <==> reason@ is Git,
        reason matches SkipReason::Pinned(req) ==> reason@ == SkipModel::Pinned(req@),
        reason is NoStable <==> reason@ is NoStable,
        reason matches SkipReason::NoEligible { newest_age } ==> reason@ == (SkipModel::NoEligible {
            newest_age: newest_age as int,
        }),
        reason is NotLocked <==> reason@ is NotLocked,
        reason matches SkipReason::LookupFailed(message) ==> reason@ == SkipModel::LookupFailed(
            message@,
        ),
{
}

} // verus!
