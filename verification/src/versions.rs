//! The published versions of a crate.

use crate::rows;
use crate::text;
use crate::text::{find_char, trim_end_slashes};
use crate::time;
use crate::time::{Instant, Timestamp};
use vstd::prelude::*;
use vstd::string::*;

verus! {

/// A version as the registry lists it.
#[derive(Debug)]
pub struct VersionInfo {
    pub num: String,
    pub created_at: Timestamp,
    pub yanked: bool,
}

/// A version that is neither yanked nor a pre-release.
#[derive(Debug)]
pub struct StableVersion {
    pub num: String,
    pub created_at: Timestamp,
}

/// The mathematical value of a [`VersionInfo`].
pub struct InfoModel {
    pub num: Seq<char>,
    pub created_at: Instant,
    pub yanked: bool,
}

/// The mathematical value of a [`StableVersion`].
pub struct VersionModel {
    pub num: Seq<char>,
    pub created_at: Instant,
}

impl View for VersionInfo {
    type V = InfoModel;

    open spec fn view(&self) -> InfoModel {
        InfoModel { num: self.num@, created_at: self.created_at@, yanked: self.yanked }
    }
}

impl View for StableVersion {
    type V = VersionModel;

    open spec fn view(&self) -> VersionModel {
        VersionModel { num: self.num@, created_at: self.created_at@ }
    }
}

/// The mathematical values of some listed versions.
pub open spec fn infos_view(infos: Seq<VersionInfo>) -> Seq<InfoModel> {
    infos.map_values(|v: VersionInfo| v@)
}

/// The mathematical values of some stable versions.
pub open spec fn versions_view(versions: Seq<StableVersion>) -> Seq<VersionModel> {
    versions.map_values(|v: StableVersion| v@)
}

/// A version without its build metadata, that is up to the first `+`.
pub open spec fn without_build(version: Seq<char>) -> Seq<char> {
    version.take(rows::first_where(version, |c: char| c == '+'))
}

/// A version is stable if no `-` stands before its build metadata, or nothing stands between
/// the first `-` and the build metadata.
pub open spec fn is_stable_version(version: Seq<char>) -> bool {
    let release = without_build(version);
    let dash = rows::first_where(release, |c: char| c == '-');
    dash == release.len() || dash + 1 == release.len()
}

/// Tests whether a version is no pre-release.
pub fn is_stable(version: &str) -> (r: bool)
    ensures
        r == is_stable_version(version@),
{
    let len: usize = version.unicode_len();
    let end: usize = match find_char(version, '+') {
        Some(k) => k,
        None => len,
    };
    let release: &str = version.substring_char(0, end);
    assert(version@.subrange(0, end as int) == without_build(version@));
    match find_char(release, '-') {
        Some(dash) => dash + 1 == end,
        None => true,
    }
}

/// Build metadata does not matter to whether a version is stable.
pub proof fn build_metadata_does_not_matter(version: Seq<char>, build: Seq<char>)
    ensures
        is_stable_version(version + "+"@ + build) == is_stable_version(version),
{
    let whole = version + "+"@ + build;
    let plus = |c: char| c == '+';
    reveal_strlit("+");
    assert(whole[version.len() as int] == '+');
    let k = rows::first_where(version, plus);
    rows::lemma_first_where_found(version, plus);
    assert forall|j: int| 0 <= j < k implies !plus(#[trigger] whole[j]) by {
        assert(whole[j] == version[j]);
    }
    rows::lemma_first_where(whole, plus, k);
    assert(without_build(whole) == without_build(version));
}

/// What follows a release after a `-` makes it a pre-release, and without a `-` it is none.
pub proof fn a_suffix_makes_a_pre_release(release: Seq<char>, suffix: Seq<char>)
    requires
        !release.contains('+'),
        !release.contains('-'),
        !suffix.contains('+'),
    ensures
        is_stable_version(release),
        is_stable_version(release + "-"@ + suffix) <==> suffix.len() == 0,
{
    let whole = release + "-"@ + suffix;
    let plus = |c: char| c == '+';
    let dash = |c: char| c == '-';
    reveal_strlit("-");
    let n = release.len() as int;
    assert(whole[n] == '-');
    assert forall|j: int| 0 <= j < n implies !plus(#[trigger] release[j]) && !dash(release[j]) by {
        assert(release.contains(release[j]));
    }
    assert forall|j: int| 0 <= j < whole.len() implies !plus(#[trigger] whole[j]) by {
        if j < n {
            assert(whole[j] == release[j]);
        } else if j > n {
            assert(whole[j] == suffix[j - n - 1]);
            assert(suffix.contains(suffix[j - n - 1]));
        }
    }
    assert forall|j: int| 0 <= j < n implies !dash(#[trigger] whole[j]) by {
        assert(whole[j] == release[j]);
    }
    rows::lemma_first_where(release, plus, n);
    rows::lemma_first_where(release, dash, n);
    rows::lemma_first_where(whole, plus, whole.len() as int);
    rows::lemma_first_where(whole, dash, n);
    assert(without_build(release) == release);
    assert(without_build(whole) == whole);
}

/// The listed versions that are neither yanked nor pre-releases, in the order of the list.
pub open spec fn stable_among(infos: Seq<InfoModel>) -> Seq<VersionModel> {
    infos.filter(|v: InfoModel| !v.yanked && is_stable_version(v.num)).map_values(
        |v: InfoModel| VersionModel { num: v.num, created_at: v.created_at },
    )
}

/// Of the versions at two places of a list the one at `a` goes first: it is newer, or as new
/// and listed earlier.
pub open spec fn goes_first(versions: Seq<VersionModel>, a: int, b: int) -> bool {
    time::earlier(versions[b].created_at, versions[a].created_at) || (versions[a].created_at
        == versions[b].created_at && a < b)
}

/// `order` names each place of the list once, newest version first.
pub open spec fn is_newest_first_order(order: Seq<int>, versions: Seq<VersionModel>) -> bool {
    &&& forall|i: int| 0 <= i < order.len() ==> 0 <= #[trigger] order[i] < versions.len()
    &&& forall|k: int| 0 <= k < versions.len() ==> #[trigger] order.contains(k)
    &&& forall|i: int, j: int|
        0 <= i < j < order.len() ==> goes_first(versions, #[trigger] order[i], #[trigger] order[j])
}

/// `sorted` has the versions of a list, newest first, those of one time in the order of the
/// list.
pub open spec fn is_newest_first(
    sorted: Seq<VersionModel>,
    versions: Seq<VersionModel>,
) -> bool {
    exists|order: Seq<int>| #[trigger]
        is_newest_first_order(order, versions) && sorted == order.map_values(|k: int| versions[k])
}

proof fn lemma_order_insert(
    order: Seq<int>,
    versions: Seq<VersionModel>,
    version: VersionModel,
    k: int,
)
    requires
        is_newest_first_order(order, versions),
        0 <= k <= order.len(),
        k > 0 ==> !time::earlier(versions[order[k - 1]].created_at, version.created_at),
        k < order.len() ==> time::earlier(versions[order[k]].created_at, version.created_at),
    ensures
        is_newest_first_order(
            order.insert(k, versions.len() as int),
            versions.push(version),
        ),
{
    let n = versions.len() as int;
    let all = versions.push(version);
    let out = order.insert(k, n);
    assert forall|i: int| 0 <= i < order.len() implies all[#[trigger] order[i]] == versions[order[i]] by {}
    assert forall|i: int| 0 <= i < k implies goes_first(all, #[trigger] order[i], n) by {
        if i < k - 1 {
            assert(goes_first(versions, order[i], order[k - 1]));
        }
    }
    assert forall|i: int| k <= i < order.len() implies goes_first(all, n, #[trigger] order[i]) by {
        if i > k {
            assert(goes_first(versions, order[k], order[i]));
        }
    }
    assert forall|i: int| 0 <= i < out.len() implies 0 <= #[trigger] out[i] < all.len() by {
        if i != k {
            assert(out[i] == order[if i < k { i } else { i - 1 }]);
        }
    }
    assert forall|j: int| 0 <= j < all.len() implies #[trigger] out.contains(j) by {
        if j == n {
            assert(out[k] == n);
        } else {
            assert(order.contains(j));
            let i = choose|i: int| 0 <= i < order.len() && order[i] == j;
            assert(out[if i < k { i } else { i + 1 }] == j);
        }
    }
    assert forall|i: int, j: int| 0 <= i < j < out.len() implies goes_first(
        all,
        #[trigger] out[i],
        #[trigger] out[j],
    ) by {
        let a = if i < k { i } else { i - 1 };
        let b = if j < k { j } else { j - 1 };
        if i != k {
            assert(out[i] == order[a]);
        }
        if j != k {
            assert(out[j] == order[b]);
        }
        if i != k && j != k {
            assert(goes_first(versions, order[a], order[b]));
        }
    }
}

/// Puts a version into its place among versions that stand newest first.
fn insert_version(sorted: &mut Vec<StableVersion>, version: StableVersion)
    ensures
        forall|versions: Seq<VersionModel>| #[trigger]
            is_newest_first(versions_view(old(sorted)@), versions) ==> is_newest_first(
                versions_view(final(sorted)@),
                versions.push(version@),
            ),
{
    let ghost before = versions_view(sorted@);
    let ghost added = version@;
    let mut k: usize = sorted.len();
    while k > 0 && sorted[k - 1].created_at.is_before(&version.created_at)
        invariant
            k <= sorted.len(),
            before == versions_view(sorted@),
            added == version@,
            k < sorted.len() ==> time::earlier(before[k as int].created_at, added.created_at),
        decreases k,
    {
        k -= 1;
    }
    if k > 0 {
        assert(before[k - 1] == sorted@[k - 1]@);
    }
    sorted.insert(k, version);
    assert(versions_view(sorted@) == before.insert(k as int, added));
    proof {
        assert forall|versions: Seq<VersionModel>| #[trigger]
            is_newest_first(before, versions) implies is_newest_first(
            before.insert(k as int, added),
            versions.push(added),
        ) by {
            let order = choose|order: Seq<int>| #[trigger]
                is_newest_first_order(order, versions) && before == order.map_values(
                    |j: int| versions[j],
                );
            lemma_order_insert(order, versions, added, k as int);
            let all = versions.push(added);
            let out = order.insert(k as int, versions.len() as int);
            assert(before.insert(k as int, added) == out.map_values(|j: int| all[j]));
        }
    }
}

/// The stable versions of a list, newest first.
pub fn stable_versions(infos: Vec<VersionInfo>) -> (versions: Vec<StableVersion>)
    ensures
        is_newest_first(versions_view(versions@), stable_among(infos_view(infos@))),
{
    let ghost given = infos@;
    let ghost all = infos_view(infos@);
    let ghost wanted = |v: InfoModel| !v.yanked && is_stable_version(v.num);
    let ghost plain = |v: InfoModel| VersionModel { num: v.num, created_at: v.created_at };
    let mut sorted: Vec<StableVersion> = Vec::new();
    proof {
        let none = Seq::<int>::empty();
        assert(is_newest_first_order(none, Seq::empty()));
        assert(versions_view(sorted@) == none.map_values(|k: int| Seq::<VersionModel>::empty()[k]));
        reveal(Seq::filter);
        assert(stable_among(all.take(0)) == Seq::<VersionModel>::empty());
    }
    for info in it: infos
        invariant
            it.seq() == given,
            all == infos_view(given),
            wanted == (|v: InfoModel| !v.yanked && is_stable_version(v.num)),
            plain == (|v: InfoModel| VersionModel { num: v.num, created_at: v.created_at }),
            is_newest_first(versions_view(sorted@), stable_among(all.take(it.index()))),
    {
        let ghost i = it.index();
        proof {
            reveal(Seq::filter);
            assert(all.take(i + 1).drop_last() == all.take(i));
            assert(all.take(i + 1).last() == info@);
            if wanted(info@) {
                assert(stable_among(all.take(i + 1)) == stable_among(all.take(i)).push(
                    plain(info@),
                ));
            } else {
                assert(stable_among(all.take(i + 1)) == stable_among(all.take(i)));
            }
        }
        if !info.yanked && is_stable(info.num.as_str()) {
            insert_version(
                &mut sorted,
                StableVersion { num: info.num, created_at: info.created_at },
            );
        }
    }
    assert(all.take(all.len() as int) == all);
    sorted
}

/// Why the versions of a crate are not known.
#[derive(Debug)]
pub enum LookupError {
    /// The request did not get through. Holds its address.
    RequestFailed(String),
    /// The registry has no such crate.
    NotFound,
    /// The registry refused the request. Holds the status.
    Http(String),
    /// The answer is no list of versions.
    InvalidJson,
}

/// The mathematical value of a [`LookupError`].
pub enum LookupErrorModel {
    RequestFailed(Seq<char>),
    NotFound,
    Http(Seq<char>),
    InvalidJson,
}

impl View for LookupError {
    type V = LookupErrorModel;

    open spec fn view(&self) -> LookupErrorModel {
        match self {
            LookupError::RequestFailed(url) => LookupErrorModel::RequestFailed(url@),
            LookupError::NotFound => LookupErrorModel::NotFound,
            LookupError::Http(status) => LookupErrorModel::Http(status@),
            LookupError::InvalidJson => LookupErrorModel::InvalidJson,
        }
    }
}

impl LookupErrorModel {
    /// What went wrong.
    pub open spec fn message(self) -> Seq<char> {
        match self {
            LookupErrorModel::RequestFailed(url) => "request to "@ + url + " failed"@,
            LookupErrorModel::NotFound => "crate not found on crates.io"@,
            LookupErrorModel::Http(status) => "HTTP "@ + status,
            LookupErrorModel::InvalidJson => "invalid JSON from crates.io"@,
        }
    }
}

impl LookupError {
    /// Says what went wrong.
    pub fn message(&self) -> (message: String)
        ensures
            message@ == self@.message(),
    {
        match self {
            LookupError::RequestFailed(url) => {
                let mut out: String = "request to ".to_owned();
                out.append(url.as_str());
                out.append(" failed");
                out
            },
            LookupError::NotFound => "crate not found on crates.io".to_owned(),
            LookupError::Http(status) => {
                let mut out: String = "HTTP ".to_owned();
                out.append(status.as_str());
                out
            },
            LookupError::InvalidJson => "invalid JSON from crates.io".to_owned(),
        }
    }
}

/// The address at which the registry lists the versions of a crate. Slashes at the end of
/// `base_url` do not matter.
pub fn crate_url(base_url: &str, name: &str) -> (url: String)
    ensures
        url@ == text::without_end_slashes(base_url@) + "/"@ + name@,
{
    let mut url: String = trim_end_slashes(base_url).to_owned();
    url.append("/");
    url.append(name);
    url
}

/// A slash at the end of the base address does not matter.
pub proof fn a_slash_after_the_base_does_not_matter(base_url: Seq<char>)
    ensures
        text::without_end_slashes(base_url.push('/')) == text::without_end_slashes(base_url),
{
    assert(base_url.push('/').drop_last() == base_url);
}

/// What a reply of the registry comes to: its status decides first, and then whether it
/// holds a list of versions.
pub open spec fn reply_error(
    status: u16,
    status_text: Seq<char>,
    has_list: bool,
) -> Option<LookupErrorModel> {
    if status == 404 {
        Some(LookupErrorModel::NotFound)
    } else if !(200 <= status <= 299) {
        Some(LookupErrorModel::Http(status_text))
    } else if !has_list {
        Some(LookupErrorModel::InvalidJson)
    } else {
        None
    }
}

/// The phrase that goes with an HTTP status.
pub uninterp spec fn reason_phrase(status: int) -> Seq<char>;

/// An HTTP status in words: its number and its phrase.
pub open spec fn status_form(status: int) -> Seq<char> {
    text::decimal(status) + " "@ + reason_phrase(status)
}

/// Writes an HTTP status, made by `reqwest::StatusCode::from_u16`, by its `Display`: the
/// number, a blank and a phrase that depends on the number alone.
#[verifier::external_body]
fn status_text(status: u16) -> (text: String)
    requires
        100 <= status <= 999,
    ensures
        text@ == text::decimal(status as int) + " "@ + reason_phrase(status as int),
{
    reqwest::StatusCode::from_u16(status).unwrap().to_string()
}

/// The stable versions that a reply of the registry lists, newest first, or what the reply
/// comes to instead. `status_text` is the status in words. `listed` is the list in the body of
/// the reply, or `None` where the body holds none.
pub fn read_reply(
    status: u16,
    status_text: &str,
    listed: Option<Vec<VersionInfo>>,
) -> (result: Result<Vec<StableVersion>, LookupError>)
    ensures
        match reply_error(status, status_text@, listed is Some) {
            Some(error) => result matches Err(e) && e@ == error,
            None => result matches Ok(versions) && is_newest_first(
                versions_view(versions@),
                stable_among(infos_view(listed->0@)),
            ),
        },
{
    if status == 404 {
        return Err(LookupError::NotFound);
    }
    if status < 200 || status > 299 {
        return Err(LookupError::Http(status_text.to_owned()));
    }
    match listed {
        Some(infos) => Ok(stable_versions(infos)),
        None => Err(LookupError::InvalidJson),
    }
}

/// The stable versions that a reply of the registry lists, newest first, or what the reply
/// comes to instead. `listed` is the list in the body of the reply, or `None` where the body
/// holds none. An HTTP status has three digits.
pub fn versions_from_reply(status: u16, listed: Option<Vec<VersionInfo>>) -> (result: Result<
    Vec<StableVersion>,
    LookupError,
>)
    requires
        100 <= status <= 999,
    ensures
        match reply_error(status, status_form(status as int), listed is Some) {
            Some(error) => result matches Err(e) && e@ == error,
            None => result matches Ok(versions) && is_newest_first(
                versions_view(versions@),
                stable_among(infos_view(listed->0@)),
            ),
        },
{
    let in_words: String = status_text(status);
    read_reply(status, in_words.as_str(), listed)
}

/// Which version stands where is settled: no two different rows are both the newest-first row
/// of the same list.
pub proof fn newest_first_is_unique(
    a: Seq<VersionModel>,
    b: Seq<VersionModel>,
    versions: Seq<VersionModel>,
)
    requires
        is_newest_first(a, versions),
        is_newest_first(b, versions),
    ensures
        a == b,
{
    let first = choose|order: Seq<int>| #[trigger]
        is_newest_first_order(order, versions) && a == order.map_values(|k: int| versions[k]);
    let second = choose|order: Seq<int>| #[trigger]
        is_newest_first_order(order, versions) && b == order.map_values(|k: int| versions[k]);
    assert forall|i: int| 0 <= i < first.len() implies second.contains(#[trigger] first[i]) by {
        assert(second.contains(first[i]));
    }
    assert forall|i: int| 0 <= i < second.len() implies first.contains(#[trigger] second[i]) by {
        assert(first.contains(second[i]));
    }
    let before = |x: int, y: int| goes_first(versions, x, y);
    assert forall|i: int, j: int| 0 <= i < j < first.len() implies before(
        #[trigger] first[i],
        #[trigger] first[j],
    ) by {}
    assert forall|i: int, j: int| 0 <= i < j < second.len() implies before(
        #[trigger] second[i],
        #[trigger] second[j],
    ) by {}
    rows::lemma_ordered_unique(first, second, before);
}

/// Of the stable versions of a list none stands before a newer one.
pub proof fn newest_stand_first(
    sorted: Seq<VersionModel>,
    versions: Seq<VersionModel>,
    i: int,
    j: int,
)
    requires
        is_newest_first(sorted, versions),
        0 <= i < j < sorted.len(),
    ensures
        !time::earlier(sorted[i].created_at, sorted[j].created_at),
{
    let order = choose|order: Seq<int>| #[trigger]
        is_newest_first_order(order, versions) && sorted == order.map_values(
            |k: int| versions[k],
        );
    assert(goes_first(versions, order[i], order[j]));
}

/// The stable versions of a list are exactly those listed that are neither yanked nor
/// pre-releases.
pub proof fn only_stable_versions_are_kept(
    sorted: Seq<VersionModel>,
    infos: Seq<InfoModel>,
    version: VersionModel,
)
    requires
        is_newest_first(sorted, stable_among(infos)),
    ensures
        sorted.contains(version) <==> infos.contains(
            InfoModel { num: version.num, created_at: version.created_at, yanked: false },
        ) && is_stable_version(version.num),
{
    let kept = stable_among(infos);
    let order = choose|order: Seq<int>| #[trigger]
        is_newest_first_order(order, kept) && sorted == order.map_values(|k: int| kept[k]);
    if sorted.contains(version) {
        let i = choose|i: int| 0 <= i < sorted.len() && sorted[i] == version;
        assert(kept[order[i]] == version);
        assert(kept.contains(version));
    }
    if kept.contains(version) {
        let k = choose|k: int| 0 <= k < kept.len() && kept[k] == version;
        assert(order.contains(k));
        let i = choose|i: int| 0 <= i < order.len() && order[i] == k;
        assert(sorted[i] == version);
    }
    lemma_stable_among(infos, version);
}

proof fn lemma_stable_among(infos: Seq<InfoModel>, version: VersionModel)
    ensures
        stable_among(infos).contains(version) <==> infos.contains(
            InfoModel { num: version.num, created_at: version.created_at, yanked: false },
        ) && is_stable_version(version.num),
{
    let wanted = |v: InfoModel| !v.yanked && is_stable_version(v.num);
    let info = InfoModel { num: version.num, created_at: version.created_at, yanked: false };
    let filtered = infos.filter(wanted);
    if stable_among(infos).contains(version) {
        let k = choose|k: int|
            0 <= k < stable_among(infos).len() && stable_among(infos)[k] == version;
        infos.lemma_filter_pred(wanted, k);
        infos.lemma_filter_contains_rev(wanted, filtered[k]);
        assert(filtered[k] == info);
    }
    if infos.contains(info) && is_stable_version(version.num) {
        let k = choose|k: int| 0 <= k < infos.len() && infos[k] == info;
        infos.lemma_filter_contains(wanted, k);
        let j = choose|j: int| 0 <= j < filtered.len() && filtered[j] == info;
        assert(stable_among(infos)[j] == version);
    }
}

/// Of the versions published at one time, exactly the stable ones that are not yanked are kept,
/// as often as they are listed and in the order of the list.
pub proof fn versions_of_one_time_keep_their_order(
    sorted: Seq<VersionModel>,
    infos: Seq<InfoModel>,
    at: Instant,
)
    requires
        is_newest_first(sorted, stable_among(infos)),
    ensures
        sorted.filter(|v: VersionModel| v.created_at == at) == infos.filter(
            |v: InfoModel| !v.yanked && is_stable_version(v.num) && v.created_at == at,
        ).map_values(|v: InfoModel| VersionModel { num: v.num, created_at: v.created_at }),
{
    let kept = stable_among(infos);
    let then = |v: VersionModel| v.created_at == at;
    let pick = |k: int| kept[k];
    let there = |k: int| then(pick(k));
    let order = choose|order: Seq<int>| #[trigger]
        is_newest_first_order(order, kept) && sorted == order.map_values(|k: int| kept[k]);
    let natural = Seq::new(kept.len(), |k: int| k);
    assert(natural.map_values(pick) == kept);
    rows::lemma_filter_of_picked(order, pick, then);
    rows::lemma_filter_of_picked(natural, pick, then);
    let a = order.filter(there);
    let b = natural.filter(there);
    assert(a == b) by {
        let below = |x: int, y: int| x < y;
        let first = |x: int, y: int| goes_first(kept, x, y);
        assert forall|i: int, j: int| 0 <= i < j < natural.len() implies below(
            #[trigger] natural[i],
            #[trigger] natural[j],
        ) by {}
        rows::lemma_filter_keeps_order(natural, below, there);
        assert forall|i: int, j: int| 0 <= i < j < order.len() implies first(
            #[trigger] order[i],
            #[trigger] order[j],
        ) by {}
        rows::lemma_filter_keeps_order(order, first, there);
        assert forall|i: int, j: int| 0 <= i < j < a.len() implies below(
            #[trigger] a[i],
            #[trigger] a[j],
        ) by {
            assert(first(a[i], a[j]));
            order.lemma_filter_pred(there, i);
            order.lemma_filter_pred(there, j);
        }
        assert forall|i: int| 0 <= i < a.len() implies b.contains(#[trigger] a[i]) by {
            order.lemma_filter_pred(there, i);
            order.lemma_filter_contains_rev(there, a[i]);
            let k = choose|k: int| 0 <= k < order.len() && order[k] == a[i];
            assert(natural[order[k]] == a[i]);
            natural.lemma_filter_contains(there, order[k]);
        }
        assert forall|i: int| 0 <= i < b.len() implies a.contains(#[trigger] b[i]) by {
            natural.lemma_filter_pred(there, i);
            natural.lemma_filter_contains_rev(there, b[i]);
            let k = choose|k: int| 0 <= k < natural.len() && natural[k] == b[i];
            assert(order.contains(k));
            let j = choose|j: int| 0 <= j < order.len() && order[j] == k;
            order.lemma_filter_contains(there, j);
        }
        rows::lemma_ordered_unique(a, b, below);
    }
    assert(sorted.filter(then) == kept.filter(then));
    lemma_stable_at(infos, at);
}

proof fn lemma_stable_at(infos: Seq<InfoModel>, at: Instant)
    ensures
        stable_among(infos).filter(|v: VersionModel| v.created_at == at) == infos.filter(
            |v: InfoModel| !v.yanked && is_stable_version(v.num) && v.created_at == at,
        ).map_values(|v: InfoModel| VersionModel { num: v.num, created_at: v.created_at }),
    decreases infos.len(),
{
    reveal(Seq::filter);
    let then = |v: VersionModel| v.created_at == at;
    let stable = |v: InfoModel| !v.yanked && is_stable_version(v.num);
    let both = |v: InfoModel| !v.yanked && is_stable_version(v.num) && v.created_at == at;
    let plain = |v: InfoModel| VersionModel { num: v.num, created_at: v.created_at };
    let left = stable_among(infos).filter(then);
    let right = infos.filter(both).map_values(plain);
    if infos.len() == 0 {
        assert(left == right);
    } else {
        let rest = infos.drop_last();
        let x = infos.last();
        lemma_stable_at(rest, at);
        if stable(x) {
            assert(stable_among(infos) == stable_among(rest).push(plain(x)));
            assert(stable_among(infos).drop_last() == stable_among(rest));
        } else {
            assert(stable_among(infos) == stable_among(rest));
        }
        if both(x) {
            assert(right == rest.filter(both).map_values(plain).push(plain(x)));
        } else {
            assert(right == rest.filter(both).map_values(plain));
        }
        assert(left == right);
    }
}

/// A reply gives versions exactly if it reports success and holds a list. Status 404 says that
/// there is no such crate, and any other status is handed on in words.
pub proof fn a_reply_is_judged_by_its_status_first(
    status: u16,
    status_text: Seq<char>,
    has_list: bool,
)
    ensures
        reply_error(status, status_text, has_list) is None <==> status / 100 == 2 && has_list,
        reply_error(status, status_text, has_list) == Some(LookupErrorModel::NotFound) <==> status
            == 404,
        reply_error(status, status_text, has_list) == Some(LookupErrorModel::InvalidJson)
            <==> status / 100 == 2 && !has_list,
        status / 100 != 2 && status != 404 ==> reply_error(status, status_text, has_list) == Some(
            LookupErrorModel::Http(status_text),
        ),
        status_form(status as int) == text::decimal(status as int) + seq![' '] + reason_phrase(
            status as int,
        ),
{
    reveal_strlit(" ");
    assert(" "@ == seq![' ']);
}

/// What is said of a lookup that failed.
pub proof fn a_failed_lookup_is_told(url: Seq<char>, status: Seq<char>)
    ensures
        LookupErrorModel::RequestFailed(url).message() == "request to "@ + url + " failed"@,
        LookupErrorModel::NotFound.message() == "crate not found on crates.io"@,
        LookupErrorModel::Http(status).message() == "HTTP "@ + status,
        LookupErrorModel::InvalidJson.message() == "invalid JSON from crates.io"@,
{
}

/// Versions are seen as they are, each in its place.
pub proof fn versions_are_seen_whole(infos: Seq<VersionInfo>, versions: Seq<StableVersion>)
    ensures
        infos_view(infos).len() == infos.len(),
        forall|i: int|
            0 <= i < infos.len() ==> (#[trigger] infos_view(infos)[i]).num == infos[i].num@
                && infos_view(infos)[i].created_at == infos[i].created_at@ && infos_view(
                infos,
            )[i].yanked == infos[i].yanked,
        versions_view(versions).len() == versions.len(),
        forall|i: int|
            0 <= i < versions.len() ==> (#[trigger] versions_view(versions)[i]).num
                == versions[i].num@ && versions_view(versions)[i].created_at
                == versions[i].created_at@,
{
}

/// Errors of lookups are seen whole.
pub proof fn lookup_errors_are_seen_whole(error: LookupError)
    ensures
        error matches LookupError::RequestFailed(url) ==> error@ == LookupErrorModel::RequestFailed(
            url@,
        ),
        error is NotFound <==> error@ is NotFound,
        error matches LookupError::Http(status) ==> error@ == LookupErrorModel::Http(status@),
        error is InvalidJson <==> error@ is InvalidJson,
{
}

} // verus!
