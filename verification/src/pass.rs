//! One pass over the dependencies that moves them to releases that have aged.

use crate::manifest;
use crate::manifest::Dependency;
use crate::report;
use crate::report::{
    write_age_line, write_aged, write_heading, write_label, write_published, write_skip, Line,
    LineModel,
};
use crate::rows;
use crate::status;
use crate::status::{
    eligible_places, locked_place, skip_without_lookup, Facts, FactsModel, SkipModel, SkipReason,
};
use crate::text;
use crate::text::{i64_text, usize_text};
use crate::time;
use crate::time::{Instant, Timestamp};
use crate::versions;
use crate::versions::{StableVersion, VersionModel};
use vstd::prelude::*;
use vstd::string::*;

verus! {

/// How many versions of a dependency are tried at most.
pub const MAX_UPDATE_ATTEMPTS: usize = 5;

/// A version to try, with its age in days.
#[derive(Debug)]
pub struct Candidate {
    pub num: String,
    pub age: i64,
}

/// The mathematical value of a [`Candidate`].
pub struct CandidateModel {
    pub num: Seq<char>,
    pub age: int,
}

impl View for Candidate {
    type V = CandidateModel;

    open spec fn view(&self) -> CandidateModel {
        CandidateModel { num: self.num@, age: self.age as int }
    }
}

/// The mathematical values of some candidates.
pub open spec fn candidates_view(candidates: Seq<Candidate>) -> Seq<CandidateModel> {
    candidates.map_values(|c: Candidate| c@)
}

/// The attempt to move a dependency: the versions to try in turn, and the one whose turn it is.
#[derive(Debug)]
pub struct Attempt {
    name: String,
    candidates: Vec<Candidate>,
    eligible: usize,
    at: usize,
}

/// The mathematical value of an [`Attempt`].
pub struct AttemptModel {
    pub name: Seq<char>,
    pub candidates: Seq<CandidateModel>,
    pub eligible: int,
    pub at: int,
}

impl AttemptModel {
    /// There is a version whose turn it is, and the versions to try are not more than allowed.
    pub open spec fn wf(self) -> bool {
        &&& 0 <= self.at < self.candidates.len()
        &&& self.candidates.len() <= MAX_UPDATE_ATTEMPTS
        &&& self.candidates.len() <= self.eligible
    }
}

impl View for Attempt {
    type V = AttemptModel;

    closed spec fn view(&self) -> AttemptModel {
        AttemptModel {
            name: self.name@,
            candidates: candidates_view(self.candidates@),
            eligible: self.eligible as int,
            at: self.at as int,
        }
    }
}

/// What is to be done about a dependency.
#[derive(Debug)]
pub enum Plan {
    /// Nothing: it is left alone.
    Skip,
    /// Nothing, in a dry run: it would be moved.
    WouldUpdate,
    /// It is to be moved.
    Update(Attempt),
}

/// The mathematical value of a [`Plan`].
pub enum PlanModel {
    Skip,
    WouldUpdate,
    Update(AttemptModel),
}

impl View for Plan {
    type V = PlanModel;

    open spec fn view(&self) -> PlanModel {
        match self {
            Plan::Skip => PlanModel::Skip,
            Plan::WouldUpdate => PlanModel::WouldUpdate,
            Plan::Update(attempt) => PlanModel::Update(attempt@),
        }
    }
}

/// A plan with the lines that announce it.
#[derive(Debug)]
pub struct PlanReport {
    pub lines: Vec<Line>,
    pub plan: Plan,
}

/// What an attempt has come to.
#[derive(Debug)]
pub enum Progress {
    /// The next version is to be tried.
    Again(Attempt),
    /// The dependency has been moved.
    Updated,
    /// No version could be taken.
    GaveUp,
}

/// The mathematical value of a [`Progress`].
pub enum ProgressModel {
    Again(AttemptModel),
    Updated,
    GaveUp,
}

impl View for Progress {
    type V = ProgressModel;

    open spec fn view(&self) -> ProgressModel {
        match self {
            Progress::Again(attempt) => ProgressModel::Again(attempt@),
            Progress::Updated => ProgressModel::Updated,
            Progress::GaveUp => ProgressModel::GaveUp,
        }
    }
}

/// What an attempt has come to, with the lines that say so.
#[derive(Debug)]
pub struct ProgressReport {
    pub lines: Vec<Line>,
    pub progress: Progress,
}

/// What the facts on a dependency ask for.
pub enum Decision {
    /// It is left alone for the given reason.
    Settled(SkipModel),
    /// Its newest version is too young.
    TooYoung(VersionModel),
    /// The lock file holds this version, which is old enough.
    Held(VersionModel),
    /// It is to go to the first of these versions that can be taken.
    Move(Seq<VersionModel>),
}

/// What the facts on a dependency ask for.
pub open spec fn decision(
    dep: manifest::DependencyModel,
    facts: FactsModel,
    min_age: int,
    now: Instant,
) -> Decision {
    match status::settled_skip(dep) {
        Some(reason) => Decision::Settled(reason),
        None => match facts.versions {
            Err(error) => Decision::Settled(SkipModel::LookupFailed(error.message())),
            Ok(listed) => {
                let old = status::eligible(listed, min_age, now);
                if listed.len() == 0 {
                    Decision::Settled(SkipModel::NoStable)
                } else if status::age_of(listed[0], now) < min_age {
                    Decision::TooYoung(listed[0])
                } else {
                    match status::first_locked(old, facts.locked) {
                        Some(v) => Decision::Held(v),
                        None => Decision::Move(old),
                    }
                }
            },
        },
    }
}

/// A version to try, with its age.
pub open spec fn candidate(version: VersionModel, now: Instant) -> CandidateModel {
    CandidateModel { num: version.num, age: status::age_of(version, now) }
}

/// The attempt to move a dependency to one of the versions that are old enough. The first few
/// of them are tried, beginning with the first.
pub open spec fn first_attempt(
    name: Seq<char>,
    old: Seq<VersionModel>,
    now: Instant,
) -> AttemptModel {
    AttemptModel {
        name,
        candidates: old.take(rows::smaller(old.len() as int, MAX_UPDATE_ATTEMPTS as int)).map_values(
            |v: VersionModel| candidate(v, now),
        ),
        eligible: old.len() as int,
        at: 0,
    }
}

/// What is to be done about a dependency.
pub open spec fn plan_of(
    dep: manifest::DependencyModel,
    facts: FactsModel,
    min_age: int,
    dry_run: bool,
    now: Instant,
) -> PlanModel {
    match decision(dep, facts, min_age, now) {
        Decision::Move(old) => if dry_run {
            PlanModel::WouldUpdate
        } else {
            PlanModel::Update(first_attempt(dep.name, old, now))
        },
        _ => PlanModel::Skip,
    }
}

/// A line on a version and its age, and the line on its publication where details are wanted.
pub open spec fn version_lines(
    mark: Seq<char>,
    name: Seq<char>,
    version: VersionModel,
    now: Instant,
    rest: Seq<char>,
    verbose: bool,
) -> Seq<LineModel> {
    let line = report::age_line(
        mark,
        report::label(name, version.num),
        text::decimal(status::age_of(version, now)),
        rest,
    );
    if verbose {
        seq![line, report::published_line(version.created_at)]
    } else {
        seq![line]
    }
}

/// The lines that announce what is to be done about a dependency.
pub open spec fn plan_lines(
    dep: manifest::DependencyModel,
    facts: FactsModel,
    min_age: int,
    dry_run: bool,
    verbose: bool,
    now: Instant,
) -> Seq<LineModel> {
    match decision(dep, facts, min_age, now) {
        Decision::Settled(reason) => seq![report::skip_line(dep.name, reason)],
        Decision::TooYoung(v) => version_lines(
            "  ✗ "@,
            dep.name,
            v,
            now,
            " days old, skipping"@,
            verbose,
        ),
        Decision::Held(v) => report::aged_lines(
            dep.name,
            v.num,
            status::age_of(v, now),
            v.created_at,
            verbose,
        ),
        Decision::Move(old) => version_lines(
            "  ✓ "@,
            dep.name,
            old[0],
            now,
            if dry_run {
                " days old, would update (dry-run)"@
            } else {
                " days old, updating..."@
            },
            verbose,
        ),
    }
}

fn write_version(
    mark: &str,
    name: &str,
    version: &StableVersion,
    now: &Timestamp,
    rest: &str,
    verbose: bool,
) -> (lines: Vec<Line>)
    ensures
        report::lines_view(lines@) == version_lines(mark@, name@, version@, now@, rest@, verbose),
{
    let age: i64 = now.days_since(&version.created_at);
    let mut lines: Vec<Line> = Vec::new();
    lines.push(
        write_age_line(
            mark,
            write_label(name, version.num.as_str()).as_str(),
            i64_text(age).as_str(),
            rest,
        ),
    );
    if verbose {
        lines.push(write_published(&version.created_at));
    }
    assert(report::lines_view(lines@) == version_lines(
        mark@,
        name@,
        version@,
        now@,
        rest@,
        verbose,
    ));
    lines
}

fn settled(name: &str, reason: &SkipReason) -> (report: PlanReport)
    ensures
        report::lines_view(report.lines@) == seq![report::skip_line(name@, reason@)],
        report.plan@ == PlanModel::Skip,
{
    let mut lines: Vec<Line> = Vec::new();
    lines.push(write_skip(name, reason));
    assert(report::lines_view(lines@) == seq![report::skip_line(name@, reason@)]);
    PlanReport { lines, plan: Plan::Skip }
}

impl Attempt {
    #[verifier::type_invariant]
    closed spec fn valid(self) -> bool {
        self@.wf()
    }

    /// Starts to try the versions at `places`.
    fn start(name: &str, listed: &Vec<StableVersion>, places: &Vec<usize>, now: &Timestamp) -> (
    attempt: Attempt)
        requires
            places@.len() > 0,
            forall|i: int| 0 <= i < places@.len() ==> #[trigger] places@[i] < listed@.len(),
        ensures
            attempt@ == first_attempt(
                name@,
                status::picked(versions::versions_view(listed@), places@),
                now@,
            ),
    {
        let ghost old = status::picked(versions::versions_view(listed@), places@);
        let count: usize = if places.len() <= MAX_UPDATE_ATTEMPTS {
            places.len()
        } else {
            MAX_UPDATE_ATTEMPTS
        };
        let mut candidates: Vec<Candidate> = Vec::new();
        let mut i: usize = 0;
        while i < count
            invariant
                i <= count <= places@.len(),
                forall|j: int| 0 <= j < places@.len() ==> #[trigger] places@[j] < listed@.len(),
                old == status::picked(versions::versions_view(listed@), places@),
                candidates@.len() == i,
                forall|j: int|
                    0 <= j < i ==> (#[trigger] candidates@[j])@ == candidate(old[j], now@),
            decreases count - i,
        {
            let version: &StableVersion = &listed[places[i]];
            assert(old[i as int] == version@);
            candidates.push(
                Candidate {
                    num: version.num.clone(),
                    age: now.days_since(&version.created_at),
                },
            );
            i += 1;
        }
        assert(candidates_view(candidates@) == first_attempt(name@, old, now@).candidates);
        Attempt { name: name.to_owned(), candidates, eligible: places.len(), at: 0 }
    }
}

/// Decides what is to be done about a dependency. What `facts` hold counts only where
/// [`skip_without_lookup`] finds no reason.
pub fn plan_dep(
    dep: &Dependency,
    facts: &Facts,
    min_age: i64,
    dry_run: bool,
    verbose: bool,
    now: &Timestamp,
) -> (report: PlanReport)
    ensures
        report.plan@ == plan_of(dep@, facts@, min_age as int, dry_run, now@),
        report::lines_view(report.lines@) == plan_lines(
            dep@,
            facts@,
            min_age as int,
            dry_run,
            verbose,
            now@,
        ),
{
    let name: &str = dep.name.as_str();
    if let Some(reason) = skip_without_lookup(dep) {
        return settled(name, &reason);
    }
    let listed = match &facts.versions {
        Ok(list) => list,
        Err(error) => return settled(name, &SkipReason::LookupFailed(error.message())),
    };
    if listed.len() == 0 {
        return settled(name, &SkipReason::NoStable);
    }
    let ghost all = versions::versions_view(listed@);
    assert(all[0] == listed@[0]@);
    if now.days_since(&listed[0].created_at) < min_age {
        let lines: Vec<Line> = write_version(
            "  ✗ ",
            name,
            &listed[0],
            now,
            " days old, skipping",
            verbose,
        );
        return PlanReport { lines, plan: Plan::Skip };
    }
    let places: Vec<usize> = eligible_places(listed, min_age, now);
    if let Some(k) = locked_place(listed, &places, &facts.locked) {
        let lines: Vec<Line> = write_aged(
            name,
            listed[k].num.as_str(),
            now.days_since(&listed[k].created_at),
            &listed[k].created_at,
            verbose,
        );
        return PlanReport { lines, plan: Plan::Skip };
    }
    let ghost old = status::picked(all, places@);
    proof {
        lemma_newest_is_eligible(all, min_age as int, now@);
        assert(old[0] == listed@[places@[0] as int]@);
    }
    let top: &StableVersion = &listed[places[0]];
    if dry_run {
        let lines: Vec<Line> = write_version(
            "  ✓ ",
            name,
            top,
            now,
            " days old, would update (dry-run)",
            verbose,
        );
        return PlanReport { lines, plan: Plan::WouldUpdate };
    }
    let lines: Vec<Line> = write_version("  ✓ ", name, top, now, " days old, updating...", verbose);
    PlanReport { lines, plan: Plan::Update(Attempt::start(name, listed, &places, now)) }
}

proof fn lemma_newest_is_eligible(versions: Seq<VersionModel>, min_age: int, now: Instant)
    requires
        versions.len() > 0,
        status::age_of(versions[0], now) >= min_age,
    ensures
        status::eligible(versions, min_age, now).len() > 0,
{
    let old_enough = |v: VersionModel| status::age_of(v, now) >= min_age;
    versions.lemma_filter_contains(old_enough, 0);
}

/// A version in brackets with its age, after its package.
pub open spec fn with_age(name: Seq<char>, c: CandidateModel) -> Seq<char> {
    name + " "@ + c.num + " ("@ + text::decimal(c.age) + " days old)"@
}

/// What is said of the versions that were tried in vain.
pub open spec fn tried_hint(tried: int, eligible: int) -> Seq<char> {
    if eligible > tried {
        " (tried "@ + text::decimal(tried) + " of "@ + text::decimal(eligible)
            + " eligible versions; increase MAX_UPDATE_ATTEMPTS to try more)"@
    } else {
        " (tried all "@ + text::decimal(tried) + " eligible versions)"@
    }
}

impl AttemptModel {
    /// The version whose turn it is.
    pub open spec fn current(self) -> CandidateModel {
        self.candidates[self.at]
    }

    /// The attempt at the version after this one.
    pub open spec fn next(self) -> AttemptModel {
        AttemptModel { at: self.at + 1, ..self }
    }

    /// What the attempt comes to once it is known whether the version could be taken.
    pub open spec fn progress(self, taken: bool) -> ProgressModel {
        if taken {
            ProgressModel::Updated
        } else if self.at + 1 < self.candidates.len() {
            ProgressModel::Again(self.next())
        } else {
            ProgressModel::GaveUp
        }
    }

    /// The lines on a version that was taken: none for the one that was announced.
    pub open spec fn taken_lines(self) -> Seq<LineModel> {
        if self.at == 0 {
            Seq::empty()
        } else {
            seq![LineModel::Stdout("    ✓ pinned "@ + with_age(self.name, self.current()))]
        }
    }

    /// The lines on a version that could not be taken, and on what follows.
    pub open spec fn refused_lines(self, error: Seq<char>, verbose: bool) -> Seq<LineModel> {
        let detail = LineModel::Stderr(
            "      cargo update failed for "@ + self.name + " "@ + self.current().num + ": "@ + error,
        );
        let details = if verbose {
            seq![detail]
        } else {
            Seq::empty()
        };
        if self.at + 1 < self.candidates.len() {
            details + seq![
                LineModel::Stdout(
                    "    → retrying with "@ + with_age(self.name, self.next().current()) + "..."@,
                ),
            ]
        } else {
            details + seq![
                LineModel::Stderr(
                    "    ! no compatible age-eligible version for "@ + self.name + tried_hint(
                        self.candidates.len() as int,
                        self.eligible,
                    ),
                ),
                LineModel::Stderr("      last error: "@ + error),
            ]
        }
    }
}

fn write_with_age(start: &str, name: &str, c: &Candidate) -> (r: String)
    ensures
        r@ == start@ + with_age(name@, c@),
{
    let mut out: String = name.to_owned();
    out.append(" ");
    out.append(c.num.as_str());
    out.append(" (");
    out.append(i64_text(c.age).as_str());
    out.append(" days old)");
    let mut whole: String = start.to_owned();
    whole.append(out.as_str());
    whole
}

fn write_tried(tried: usize, eligible: usize) -> (r: String)
    ensures
        r@ == tried_hint(tried as int, eligible as int),
{
    if eligible > tried {
        let mut out: String = " (tried ".to_owned();
        out.append(usize_text(tried).as_str());
        out.append(" of ");
        out.append(usize_text(eligible).as_str());
        out.append(" eligible versions; increase MAX_UPDATE_ATTEMPTS to try more)");
        out
    } else {
        let mut out: String = " (tried all ".to_owned();
        out.append(usize_text(tried).as_str());
        out.append(" eligible versions)");
        out
    }
}

impl Attempt {
    /// The name of the package that is to be moved.
    pub fn package(&self) -> (name: &str)
        ensures
            name@ == self@.name,
    {
        self.name.as_str()
    }

    /// The version whose turn it is.
    pub fn version(&self) -> (num: &str)
        ensures
            num@ == self@.current().num,
    {
        proof {
            use_type_invariant(self);
        }
        assert(self@.candidates[self.at as int] == self.candidates@[self.at as int]@);
        self.candidates[self.at].num.as_str()
    }

    /// Goes on once it is known whether the version could be taken. An error says why not.
    pub fn report(self, answer: Result<(), String>, verbose: bool) -> (report: ProgressReport)
        ensures
            report.progress@ == self@.progress(answer is Ok),
            report::lines_view(report.lines@) == match answer {
                Ok(_) => self@.taken_lines(),
                Err(error) => self@.refused_lines(error@, verbose),
            },
    {
        proof {
            use_type_invariant(&self);
            assert(self@.candidates[self.at as int] == self.candidates@[self.at as int]@);
        }
        let mut lines: Vec<Line> = Vec::new();
        let error: String = match answer {
            Ok(_) => {
                if self.at != 0 {
                    lines.push(
                        Line::Stdout(
                            write_with_age(
                                "    ✓ pinned ",
                                self.name.as_str(),
                                &self.candidates[self.at],
                            ),
                        ),
                    );
                }
                assert(report::lines_view(lines@) == self@.taken_lines());
                return ProgressReport { lines, progress: Progress::Updated };
            },
            Err(error) => error,
        };
        if verbose {
            let mut out: String = "      cargo update failed for ".to_owned();
            out.append(self.name.as_str());
            out.append(" ");
            out.append(self.candidates[self.at].num.as_str());
            out.append(": ");
            out.append(error.as_str());
            lines.push(Line::Stderr(out));
        }
        let at: usize = self.at + 1;
        if at < self.candidates.len() {
            assert(self@.candidates[at as int] == self.candidates@[at as int]@);
            let mut out: String = write_with_age(
                "    → retrying with ",
                self.name.as_str(),
                &self.candidates[at],
            );
            out.append("...");
            lines.push(Line::Stdout(out));
            assert(report::lines_view(lines@) == self@.refused_lines(error@, verbose));
            let next: Attempt = Attempt {
                name: self.name,
                candidates: self.candidates,
                eligible: self.eligible,
                at,
            };
            ProgressReport { lines, progress: Progress::Again(next) }
        } else {
            let mut out: String = "    ! no compatible age-eligible version for ".to_owned();
            out.append(self.name.as_str());
            out.append(write_tried(self.candidates.len(), self.eligible).as_str());
            lines.push(Line::Stderr(out));
            let mut last: String = "      last error: ".to_owned();
            last.append(error.as_str());
            lines.push(Line::Stderr(last));
            assert(report::lines_view(lines@) == self@.refused_lines(error@, verbose));
            ProgressReport { lines, progress: Progress::GaveUp }
        }
    }
}

/// A pass over some dependencies, one after another: which one it is at, how many of those
/// before it were moved and left alone, and the attempt to move it, if that is under way.
#[derive(Debug)]
pub struct Pass {
    count: usize,
    at: usize,
    updated: usize,
    skipped: usize,
    attempt: Option<Attempt>,
}

/// The mathematical value of a [`Pass`].
pub struct PassModel {
    pub count: int,
    pub at: int,
    pub updated: int,
    pub skipped: int,
    pub attempt: Option<AttemptModel>,
}

impl View for Pass {
    type V = PassModel;

    closed spec fn view(&self) -> PassModel {
        PassModel {
            count: self.count as int,
            at: self.at as int,
            updated: self.updated as int,
            skipped: self.skipped as int,
            attempt: match self.attempt {
                Some(attempt) => Some(attempt@),
                None => None,
            },
        }
    }
}

/// What a pass waits for.
#[derive(Debug)]
pub enum Next {
    /// The facts on the dependency at this place.
    Facts(usize),
    /// Whether the package can be set to the version.
    Update { name: String, version: String },
    /// Nothing: so many dependencies were moved and left alone.
    End { updated: usize, skipped: usize },
}

/// A pass with the lines that say what has happened.
#[derive(Debug)]
pub struct PassStep {
    pub lines: Vec<Line>,
    pub pass: Pass,
}

impl PassModel {
    /// Every dependency before the present one counts once, and only the present one may be
    /// under way.
    pub open spec fn wf(self) -> bool {
        &&& 0 <= self.at <= self.count
        &&& 0 <= self.updated
        &&& 0 <= self.skipped
        &&& self.updated + self.skipped == self.at
        &&& self.attempt matches Some(attempt) ==> attempt.wf() && self.at < self.count
    }

    /// The pass is at a dependency whose facts it does not have.
    pub open spec fn wants_facts(self) -> bool {
        self.attempt is None && self.at < self.count
    }

    /// The pass at the next dependency, the present one having been moved.
    pub open spec fn moved(self) -> PassModel {
        PassModel { at: self.at + 1, updated: self.updated + 1, attempt: None, ..self }
    }

    /// The pass at the next dependency, the present one having been left alone.
    pub open spec fn left_alone(self) -> PassModel {
        PassModel { at: self.at + 1, skipped: self.skipped + 1, attempt: None, ..self }
    }

    /// The pass once there is a plan for the present dependency. What a dry run would move
    /// counts as moved.
    pub open spec fn planned(self, plan: PlanModel) -> PassModel {
        match plan {
            PlanModel::Skip => self.left_alone(),
            PlanModel::WouldUpdate => self.moved(),
            PlanModel::Update(attempt) => PassModel { attempt: Some(attempt), ..self },
        }
    }

    /// The pass once it is known whether the version could be taken.
    pub open spec fn answered(self, taken: bool) -> PassModel {
        match self.attempt->0.progress(taken) {
            ProgressModel::Again(attempt) => PassModel { attempt: Some(attempt), ..self },
            ProgressModel::Updated => self.moved(),
            ProgressModel::GaveUp => self.left_alone(),
        }
    }
}

impl Pass {
    #[verifier::type_invariant]
    closed spec fn valid(self) -> bool {
        self@.wf()
    }

    /// Starts a pass over `count` dependencies.
    pub fn start(count: usize, min_age: i64) -> (step: PassStep)
        ensures
            step.pass@ == (PassModel {
                count: count as int,
                at: 0,
                updated: 0,
                skipped: 0,
                attempt: None,
            }),
            report::lines_view(step.lines@) == seq![report::heading(count as int, min_age as int)],
    {
        let mut lines: Vec<Line> = Vec::new();
        lines.push(write_heading(count, min_age));
        assert(report::lines_view(lines@) == seq![
            report::heading(count as int, min_age as int),
        ]);
        PassStep { lines, pass: Pass { count, at: 0, updated: 0, skipped: 0, attempt: None } }
    }

    /// What the pass waits for. At its end every dependency has been counted once.
    pub fn next(&self) -> (next: Next)
        ensures
            match next {
                Next::Facts(k) => self@.wants_facts() && k == self@.at,
                Next::Update { name, version } => self@.attempt matches Some(attempt) && name@
                    == attempt.name && version@ == attempt.current().num,
                Next::End { updated, skipped } => {
                    &&& self@.attempt is None
                    &&& self@.at == self@.count
                    &&& updated == self@.updated
                    &&& skipped == self@.skipped
                    &&& updated + skipped == self@.count
                },
            },
    {
        proof {
            use_type_invariant(self);
        }
        match &self.attempt {
            Some(attempt) => Next::Update {
                name: attempt.package().to_owned(),
                version: attempt.version().to_owned(),
            },
            None => if self.at < self.count {
                Next::Facts(self.at)
            } else {
                Next::End { updated: self.updated, skipped: self.skipped }
            },
        }
    }

    /// Goes on with the facts on the present dependency, which is `dep`.
    pub fn take_facts(
        self,
        dep: &Dependency,
        facts: &Facts,
        min_age: i64,
        dry_run: bool,
        verbose: bool,
        now: &Timestamp,
    ) -> (step: PassStep)
        requires
            self@.wants_facts(),
        ensures
            step.pass@ == self@.planned(plan_of(dep@, facts@, min_age as int, dry_run, now@)),
            report::lines_view(step.lines@) == plan_lines(
                dep@,
                facts@,
                min_age as int,
                dry_run,
                verbose,
                now@,
            ),
    {
        proof {
            use_type_invariant(&self);
        }
        let Pass { count, at, updated, skipped, .. } = self;
        let report: PlanReport = plan_dep(dep, facts, min_age, dry_run, verbose, now);
        let pass: Pass = match report.plan {
            Plan::Skip => Pass { count, at: at + 1, updated, skipped: skipped + 1, attempt: None },
            Plan::WouldUpdate => Pass {
                count,
                at: at + 1,
                updated: updated + 1,
                skipped,
                attempt: None,
            },
            Plan::Update(attempt) => {
                proof {
                    use_type_invariant(&attempt);
                }
                Pass { count, at, updated, skipped, attempt: Some(attempt) }
            },
        };
        PassStep { lines: report.lines, pass }
    }

    /// Goes on once it is known whether the version could be taken. An error says why not.
    pub fn take_answer(self, answer: Result<(), String>, verbose: bool) -> (step: PassStep)
        requires
            self@.attempt is Some,
        ensures
            step.pass@ == self@.answered(answer is Ok),
            report::lines_view(step.lines@) == match answer {
                Ok(_) => self@.attempt->0.taken_lines(),
                Err(error) => self@.attempt->0.refused_lines(error@, verbose),
            },
    {
        proof {
            use_type_invariant(&self);
        }
        let Pass { count, at, updated, skipped, attempt } = self;
        match attempt {
            Some(attempt) => {
                let report: ProgressReport = attempt.report(answer, verbose);
                let pass: Pass = match report.progress {
                    Progress::Again(attempt) => {
                        proof {
                            use_type_invariant(&attempt);
                        }
                        Pass { count, at, updated, skipped, attempt: Some(attempt) }
                    },
                    Progress::Updated => Pass {
                        count,
                        at: at + 1,
                        updated: updated + 1,
                        skipped,
                        attempt: None,
                    },
                    Progress::GaveUp => Pass {
                        count,
                        at: at + 1,
                        updated,
                        skipped: skipped + 1,
                        attempt: None,
                    },
                };
                PassStep { lines: report.lines, pass }
            },
            // Ruled out: an attempt is under way.
            None => PassStep {
                lines: Vec::new(),
                pass: Pass { count, at, updated, skipped, attempt: None },
            },
        }
    }
}

/// What an attempt has come to after some answers, each `true` where the version could be
/// taken. Answers after the attempt has ended do not matter.
pub open spec fn after_answers(attempt: AttemptModel, taken: Seq<bool>) -> ProgressModel
    decreases taken.len(),
{
    if taken.len() == 0 {
        ProgressModel::Again(attempt)
    } else {
        match after_answers(attempt, taken.drop_last()) {
            ProgressModel::Again(a) => a.progress(taken.last()),
            ended => ended,
        }
    }
}

/// The first answer that is `true`, or the number of answers.
pub open spec fn first_taken(taken: Seq<bool>) -> int {
    rows::first_where(taken, |yes: bool| yes)
}

proof fn lemma_first_taken(taken: Seq<bool>)
    ensures
        0 <= first_taken(taken) <= taken.len(),
        taken.len() > 0 ==> first_taken(taken) == if first_taken(taken.drop_last()) < taken.len()
            - 1 || taken.last() {
            first_taken(taken.drop_last())
        } else {
            taken.len() as int
        },
{
    rows::lemma_first_where_found(taken, |yes: bool| yes);
    if taken.len() > 0 {
        assert(taken.drop_last().push(taken.last()) == taken);
        rows::lemma_first_where_push(taken.drop_last(), taken.last(), |yes: bool| yes);
    }
}

/// The versions of an attempt are tried in turn: it ends with the first that can be taken,
/// goes on to the next while none can, and gives up after the last.
pub proof fn versions_are_tried_in_turn(attempt: AttemptModel, taken: Seq<bool>)
    requires
        attempt.wf(),
        attempt.at == 0,
    ensures
        ({
            let k = first_taken(taken);
            let count = attempt.candidates.len();
            after_answers(attempt, taken) == if k < taken.len() && k < count {
                ProgressModel::Updated
            } else if taken.len() < count {
                ProgressModel::Again(AttemptModel { at: taken.len() as int, ..attempt })
            } else {
                ProgressModel::GaveUp
            }
        }),
    decreases taken.len(),
{
    lemma_first_taken(taken);
    if taken.len() == 0 {
        assert(attempt == (AttemptModel { at: 0, ..attempt }));
    } else {
        let rest = taken.drop_last();
        lemma_first_taken(rest);
        versions_are_tried_in_turn(attempt, rest);
    }
}

/// After as many answers as there may be attempts, an attempt has ended.
pub proof fn an_attempt_is_bounded(attempt: AttemptModel, taken: Seq<bool>)
    requires
        attempt.wf(),
        attempt.at == 0,
        taken.len() >= MAX_UPDATE_ATTEMPTS,
    ensures
        !(after_answers(attempt, taken) is Again),
{
    versions_are_tried_in_turn(attempt, taken);
}

/// The pass after some answers, each `true` where the version could be taken. Answers after the
/// attempt has ended do not matter.
pub open spec fn answered_in_turn(pass: PassModel, taken: Seq<bool>) -> PassModel
    decreases taken.len(),
{
    if taken.len() == 0 {
        pass
    } else {
        let before = answered_in_turn(pass, taken.drop_last());
        if before.attempt is Some {
            before.answered(taken.last())
        } else {
            before
        }
    }
}

proof fn lemma_answered_in_turn(pass: PassModel, taken: Seq<bool>)
    requires
        pass.attempt is Some,
    ensures
        answered_in_turn(pass, taken) == match after_answers(pass.attempt->0, taken) {
            ProgressModel::Again(attempt) => PassModel { attempt: Some(attempt), ..pass },
            ProgressModel::Updated => pass.moved(),
            ProgressModel::GaveUp => pass.left_alone(),
        },
    decreases taken.len(),
{
    if taken.len() > 0 {
        lemma_answered_in_turn(pass, taken.drop_last());
    }
}

/// Once its plan and, where it is to be moved, enough answers are there, a dependency has been
/// counted once: as moved where a dry run would move it or one of the versions to try could be
/// taken, and else as left alone.
pub proof fn every_dependency_counts_once(pass: PassModel, plan: PlanModel, taken: Seq<bool>)
    requires
        pass.wants_facts(),
        plan matches PlanModel::Update(attempt) ==> {
            &&& attempt.wf()
            &&& attempt.at == 0
            &&& taken.len() >= attempt.candidates.len()
        },
    ensures
        answered_in_turn(pass.planned(plan), taken) == match plan {
            PlanModel::Skip => pass.left_alone(),
            PlanModel::WouldUpdate => pass.moved(),
            PlanModel::Update(attempt) => if first_taken(taken) < attempt.candidates.len() {
                pass.moved()
            } else {
                pass.left_alone()
            },
        },
        pass.wf() ==> answered_in_turn(pass.planned(plan), taken).wf(),
{
    match plan {
        PlanModel::Update(attempt) => {
            lemma_answered_in_turn(pass.planned(plan), taken);
            versions_are_tried_in_turn(attempt, taken);
            lemma_first_taken(taken);
            assert(pass.planned(plan).moved() == pass.moved());
            assert(pass.planned(plan).left_alone() == pass.left_alone());
        },
        _ => {
            lemma_nothing_to_answer(pass.planned(plan), taken);
        },
    }
}

proof fn lemma_nothing_to_answer(pass: PassModel, taken: Seq<bool>)
    requires
        pass.attempt is None,
    ensures
        answered_in_turn(pass, taken) == pass,
    decreases taken.len(),
{
    if taken.len() > 0 {
        lemma_nothing_to_answer(pass, taken.drop_last());
    }
}

/// Every version that is to be tried is listed and old enough, and they are the first few
/// versions that are, in the order of the list. None of the versions that are old enough is
/// locked.
pub proof fn only_old_enough_versions_are_tried(
    dep: manifest::DependencyModel,
    facts: FactsModel,
    min_age: int,
    dry_run: bool,
    now: Instant,
)
    ensures
        plan_of(dep, facts, min_age, dry_run, now) matches PlanModel::Update(attempt) ==> {
            let old = status::eligible(facts.versions->Ok_0, min_age, now);
            &&& attempt.wf()
            &&& attempt.at == 0
            &&& attempt.name == dep.name
            &&& forall|i: int|
                0 <= i < attempt.candidates.len() ==> {
                    &&& (#[trigger] attempt.candidates[i]).num == old[i].num
                    &&& attempt.candidates[i].age == status::age_of(old[i], now)
                    &&& attempt.candidates[i].age >= min_age
                    &&& facts.versions->Ok_0.contains(old[i])
                    &&& !facts.locked.contains(old[i].num)
                }
        },
{
    if plan_of(dep, facts, min_age, dry_run, now) is Update {
        let listed = facts.versions->Ok_0;
        let old = status::eligible(listed, min_age, now);
        let old_enough = |v: VersionModel| status::age_of(v, now) >= min_age;
        let attempt = plan_of(dep, facts, min_age, dry_run, now)->Update_0;
        lemma_newest_is_eligible(listed, min_age, now);
        status::aged_means_locked_and_old_enough(dep, facts, min_age, now);
        assert forall|i: int| 0 <= i < attempt.candidates.len() implies {
            &&& (#[trigger] attempt.candidates[i]).num == old[i].num
            &&& attempt.candidates[i].age == status::age_of(old[i], now)
            &&& attempt.candidates[i].age >= min_age
            &&& listed.contains(old[i])
            &&& !facts.locked.contains(old[i].num)
        } by {
            listed.lemma_filter_pred(old_enough, i);
            listed.lemma_filter_contains_rev(old_enough, old[i]);
            assert(listed.contains(old[i]));
        }
    }
}

/// A dry run asks for no update, whatever the facts are. It counts as moved exactly what the run
/// would begin to move.
pub proof fn a_dry_run_moves_nothing(
    pass: PassModel,
    dep: manifest::DependencyModel,
    facts: FactsModel,
    min_age: int,
    now: Instant,
)
    requires
        pass.wants_facts(),
    ensures
        pass.planned(plan_of(dep, facts, min_age, true, now)).attempt is None,
        plan_of(dep, facts, min_age, true, now) is WouldUpdate <==> plan_of(
            dep,
            facts,
            min_age,
            false,
            now,
        ) is Update,
        !(plan_of(dep, facts, min_age, false, now) is WouldUpdate),
{
}

/// A dependency that a run would move is one that the check finds too fresh, if the lock file
/// holds it.
pub proof fn what_is_moved_is_too_fresh(
    dep: manifest::DependencyModel,
    facts: FactsModel,
    min_age: int,
    now: Instant,
)
    requires
        plan_of(dep, facts, min_age, false, now) is Update,
        facts.locked.len() > 0,
    ensures
        status::status_of(dep, facts, min_age, now) is Fresh,
        status::status_of(dep, facts, min_age, now)->eligible_top == plan_of(
            dep,
            facts,
            min_age,
            false,
            now,
        )->Update_0.current().num,
{
    lemma_newest_is_eligible(facts.versions->Ok_0, min_age, now);
}

proof fn lemma_newest_goes_first(versions: Seq<VersionModel>, min_age: int, now: Instant)
    requires
        versions.len() > 0,
        status::age_of(versions[0], now) >= min_age,
    ensures
        status::eligible(versions, min_age, now).len() > 0,
        status::eligible(versions, min_age, now)[0] == versions[0],
    decreases versions.len(),
{
    reveal(Seq::filter);
    let rest = versions.drop_last();
    if rest.len() > 0 {
        lemma_newest_goes_first(rest, min_age, now);
    } else {
        assert(rest.filter(|v: VersionModel| status::age_of(v, now) >= min_age) == Seq::<
            VersionModel,
        >::empty());
    }
}

/// A dependency is moved exactly if it comes from the registry without a pin, its newest stable
/// version is old enough, and the lock file holds no version that is. The first version tried
/// is the newest.
pub proof fn only_aged_releases_move_a_dependency(
    dep: manifest::DependencyModel,
    facts: FactsModel,
    min_age: int,
    now: Instant,
)
    ensures
        plan_of(dep, facts, min_age, false, now) is Update <==> {
            &&& dep.kind is Registry
            &&& !dep.kind->pinned
            &&& facts.versions is Ok
            &&& facts.versions->Ok_0.len() > 0
            &&& status::age_of(facts.versions->Ok_0[0], now) >= min_age
            &&& forall|v: VersionModel| #[trigger]
                facts.versions->Ok_0.contains(v) && status::age_of(v, now) >= min_age
                    ==> !facts.locked.contains(v.num)
        },
        plan_of(dep, facts, min_age, false, now) matches PlanModel::Update(attempt)
            ==> attempt.current() == candidate(facts.versions->Ok_0[0], now),
{
    if status::settled_skip(dep) is None && facts.versions is Ok && facts.versions->Ok_0.len() > 0
        && status::age_of(facts.versions->Ok_0[0], now) >= min_age {
        lemma_newest_goes_first(facts.versions->Ok_0, min_age, now);
        status::aged_means_locked_and_old_enough(dep, facts, min_age, now);
    }
}

/// A dependency that has been moved stays where it is: once the lock file holds one of the
/// versions that were to be tried, a later pass asks for no update of it and counts it as left
/// alone, and the check finds it aged. Only right after a leap second at the end of a day may the
/// age of a version fall back.
pub proof fn what_was_moved_stays(
    dep: manifest::DependencyModel,
    before: FactsModel,
    after: FactsModel,
    min_age: int,
    now: Instant,
    later: Instant,
    dry_run: bool,
    i: int,
    pass: PassModel,
)
    requires
        plan_of(dep, before, min_age, false, now) is Update,
        0 <= i < plan_of(dep, before, min_age, false, now)->Update_0.candidates.len(),
        after.versions == before.versions,
        after.locked.contains(
            plan_of(dep, before, min_age, false, now)->Update_0.candidates[i].num,
        ),
        time::is_instant(now.secs, now.nanos),
        time::is_instant(later.secs, later.nanos),
        !time::earlier(later, now),
        ({
            let at = status::eligible(before.versions->Ok_0, min_age, now)[i].created_at;
            time::is_instant(at.secs, at.nanos) && !time::at_a_fold(now, later, at)
        }),
        pass.wants_facts(),
    ensures
        plan_of(dep, after, min_age, dry_run, later) is Skip,
        pass.planned(plan_of(dep, after, min_age, dry_run, later)) == pass.left_alone(),
        status::status_of(dep, after, min_age, later) is Aged,
{
    only_old_enough_versions_are_tried(dep, before, min_age, false, now);
    let attempt = plan_of(dep, before, min_age, false, now)->Update_0;
    let old = status::eligible(before.versions->Ok_0, min_age, now);
    assert(attempt.candidates[i].num == old[i].num);
    assert(after.versions->Ok_0.contains(old[i]));
    time::whole_days_never_fall(now, later, old[i].created_at);
    only_aged_releases_move_a_dependency(dep, after, min_age, later);
    status::aged_means_locked_and_old_enough(dep, after, min_age, later);
}

/// Whenever a dependency is to be moved, the listed versions that are old enough are tried, newest
/// first: all of them, or the first five where there are more. The attempt knows how many there
/// are, and begins with the first.
pub proof fn as_many_aged_versions_as_allowed_are_tried(
    dep: manifest::DependencyModel,
    facts: FactsModel,
    min_age: int,
    dry_run: bool,
    now: Instant,
)
    ensures
        plan_of(dep, facts, min_age, dry_run, now) matches PlanModel::Update(attempt) ==> {
            let old = facts.versions->Ok_0.filter(
                |v: VersionModel| time::whole_days_since(now, v.created_at) >= min_age,
            );
            &&& facts.versions is Ok
            &&& attempt.name == dep.name
            &&& attempt.at == 0
            &&& attempt.eligible == old.len()
            &&& old.len() <= 5 ==> attempt.candidates.len() == old.len()
            &&& old.len() >= 5 ==> attempt.candidates.len() == 5
            &&& forall|i: int|
                0 <= i < attempt.candidates.len() ==> (#[trigger] attempt.candidates[i]).num
                    == old[i].num && attempt.candidates[i].age == time::whole_days_since(
                    now,
                    old[i].created_at,
                )
        },
{
    if plan_of(dep, facts, min_age, dry_run, now) is Update {
        let listed = facts.versions->Ok_0;
        status::age_is_counted_from_publication(listed, listed[0], min_age, now);
    }
}

/// A dependency is moved exactly if it comes from the registry without a pin, its versions are
/// known, the newest of them has at least the minimum age, and the lock file holds none that has.
/// In a dry run it would be moved exactly then.
pub proof fn what_is_moved_and_when(
    dep: manifest::DependencyModel,
    facts: FactsModel,
    min_age: int,
    now: Instant,
)
    ensures
        ({
            let listed = facts.versions->Ok_0;
            let due = {
                &&& dep.kind is Registry
                &&& !dep.kind->pinned
                &&& facts.versions is Ok
                &&& listed.len() > 0
                &&& time::whole_days_since(now, listed[0].created_at) >= min_age
                &&& forall|k: int|
                    0 <= k < listed.len() && time::whole_days_since(
                        now,
                        (#[trigger] listed[k]).created_at,
                    ) >= min_age ==> !facts.locked.contains(listed[k].num)
            };
            &&& plan_of(dep, facts, min_age, false, now) is Update <==> due
            &&& plan_of(dep, facts, min_age, false, now) is Skip <==> !due
            &&& plan_of(dep, facts, min_age, true, now) is WouldUpdate <==> due
            &&& plan_of(dep, facts, min_age, true, now) is Skip <==> !due
        }),
{
    only_aged_releases_move_a_dependency(dep, facts, min_age, now);
    if facts.versions is Ok {
        let listed = facts.versions->Ok_0;
        assert forall|v: VersionModel| #[trigger]
            listed.contains(v) && status::age_of(v, now) >= min_age && (forall|k: int|
                0 <= k < listed.len() && time::whole_days_since(
                    now,
                    (#[trigger] listed[k]).created_at,
                ) >= min_age ==> !facts.locked.contains(listed[k].num))
            implies !facts.locked.contains(v.num) by {
            let k = choose|k: int| 0 <= k < listed.len() && listed[k] == v;
            assert(time::whole_days_since(now, listed[k].created_at) >= min_age);
        }
        assert forall|k: int|
            0 <= k < listed.len() && time::whole_days_since(
                now,
                (#[trigger] listed[k]).created_at,
            ) >= min_age && (forall|v: VersionModel| #[trigger]
                listed.contains(v) && status::age_of(v, now) >= min_age
                    ==> !facts.locked.contains(v.num)) implies !facts.locked.contains(
            listed[k].num,
        ) by {
            assert(listed.contains(listed[k]));
        }
    }
}

/// The version that cargo takes first is the one that the dependency is moved to: up to its turn
/// the versions come in their order, with it the attempt ends, and where none is taken it ends
/// after the last.
pub proof fn the_first_version_that_is_taken_is_kept(
    attempt: AttemptModel,
    taken: Seq<bool>,
    k: int,
)
    requires
        attempt.wf(),
        attempt.at == 0,
        0 <= k <= taken.len(),
        k <= attempt.candidates.len(),
        forall|i: int| 0 <= i < k ==> !(#[trigger] taken[i]),
    ensures
        k < attempt.candidates.len() ==> after_answers(attempt, taken.take(k))
            == ProgressModel::Again(
            AttemptModel {
                name: attempt.name,
                candidates: attempt.candidates,
                eligible: attempt.eligible,
                at: k,
            },
        ),
        k < attempt.candidates.len() && k < taken.len() && taken[k] ==> after_answers(
            attempt,
            taken.take(k + 1),
        ) is Updated,
        k == attempt.candidates.len() ==> after_answers(attempt, taken.take(k)) is GaveUp,
    decreases k,
{
    let some = taken.take(k);
    if k > 0 {
        let rest = taken.take(k - 1);
        the_first_version_that_is_taken_is_kept(attempt, taken, k - 1);
        assert(some.drop_last() == rest);
        assert(some.last() == taken[k - 1]);
        versions_are_tried_in_turn(attempt, rest);
        lemma_none_taken(rest);
    }
    lemma_none_taken(some);
    versions_are_tried_in_turn(attempt, some);
    if k < attempt.candidates.len() && k < taken.len() && taken[k] {
        let more = taken.take(k + 1);
        assert(more.drop_last() == some);
        assert(more.last() == taken[k]);
    }
}

proof fn lemma_none_taken(taken: Seq<bool>)
    requires
        forall|i: int| 0 <= i < taken.len() ==> !(#[trigger] taken[i]),
    ensures
        first_taken(taken) == taken.len(),
{
    let yes = |answer: bool| answer;
    assert forall|i: int| 0 <= i < taken.len() implies !yes(#[trigger] taken[i]) by {}
    rows::lemma_first_where(taken, yes, taken.len() as int);
}

/// An answer either ends the attempt with the version that was taken, or leads on to the next
/// version, or ends it after the last.
pub proof fn an_answer_ends_or_leads_on(attempt: AttemptModel)
    ensures
        attempt.progress(true) is Updated,
        attempt.at + 1 < attempt.candidates.len() ==> attempt.progress(false)
            == ProgressModel::Again(
            AttemptModel {
                name: attempt.name,
                candidates: attempt.candidates,
                eligible: attempt.eligible,
                at: attempt.at + 1,
            },
        ),
        attempt.at + 1 >= attempt.candidates.len() ==> attempt.progress(false) is GaveUp,
        attempt.current() == attempt.candidates[attempt.at],
{
}

/// A pass counts a dependency once: as moved where one of its versions was taken or a dry run
/// would move it, and else as left alone. While an attempt is under way it counts nothing.
pub proof fn a_pass_counts_what_came_of_each(pass: PassModel, attempt: AttemptModel, taken: bool)
    ensures
        ({
            let skip = pass.planned(PlanModel::Skip);
            let would = pass.planned(PlanModel::WouldUpdate);
            let update = pass.planned(PlanModel::Update(attempt));
            &&& skip.at == pass.at + 1 && skip.updated == pass.updated && skip.skipped
                == pass.skipped + 1 && skip.attempt is None && skip.count == pass.count
            &&& would.at == pass.at + 1 && would.updated == pass.updated + 1 && would.skipped
                == pass.skipped && would.attempt is None && would.count == pass.count
            &&& update.at == pass.at && update.updated == pass.updated && update.skipped
                == pass.skipped && update.attempt == Some(attempt) && update.count == pass.count
        }),
        pass.attempt == Some(attempt) ==> {
            let next = pass.answered(taken);
            let last = attempt.at + 1 >= attempt.candidates.len();
            &&& next.count == pass.count
            &&& taken ==> next.at == pass.at + 1 && next.updated == pass.updated + 1
                && next.skipped == pass.skipped && next.attempt is None
            &&& !taken && last ==> next.at == pass.at + 1 && next.updated == pass.updated
                && next.skipped == pass.skipped + 1 && next.attempt is None
            &&& !taken && !last ==> next.at == pass.at && next.updated == pass.updated
                && next.skipped == pass.skipped && next.attempt == Some(
                AttemptModel {
                    name: attempt.name,
                    candidates: attempt.candidates,
                    eligible: attempt.eligible,
                    at: attempt.at + 1,
                },
            )
        },
        pass.wants_facts() <==> pass.attempt is None && pass.at < pass.count,
{
}

/// What is said of a dependency tells what is done about it: that its newest version is too young,
/// that it is held at a version that is old enough, or that it goes to the newest version, or
/// would. The publication follows exactly where details are wanted.
pub proof fn a_plan_is_announced(
    dep: manifest::DependencyModel,
    facts: FactsModel,
    min_age: int,
    dry_run: bool,
    verbose: bool,
    now: Instant,
)
    requires
        dep.kind is Registry,
        !dep.kind->pinned,
        facts.versions is Ok,
        facts.versions->Ok_0.len() > 0,
    ensures
        ({
            let newest = facts.versions->Ok_0[0];
            let age = time::whole_days_since(now, newest.created_at);
            let label = text::padded(dep.name + " "@ + newest.num, 24);
            let lines = plan_lines(dep, facts, min_age, dry_run, verbose, now);
            let plan = plan_of(dep, facts, min_age, dry_run, now);
            &&& lines.len() == if verbose {
                2int
            } else {
                1
            }
            &&& age < min_age ==> lines[0] == LineModel::Stdout(
                "  ✗ "@ + label + " — "@ + text::decimal(age) + " days old, skipping"@,
            )
            &&& plan is WouldUpdate ==> lines[0] == LineModel::Stdout(
                "  ✓ "@ + label + " — "@ + text::decimal(age)
                    + " days old, would update (dry-run)"@,
            )
            &&& plan is Update ==> lines[0] == LineModel::Stdout(
                "  ✓ "@ + label + " — "@ + text::decimal(age) + " days old, updating..."@,
            )
            &&& verbose && (age < min_age || !(plan is Skip)) ==> lines[1] == LineModel::Stdout(
                "      (published "@ + time::rfc3339_form(
                    newest.created_at.secs,
                    newest.created_at.nanos,
                ) + ")"@,
            )
            &&& age >= min_age && plan is Skip ==> exists|k: int|
                {
                    let held = facts.versions->Ok_0[k];
                    &&& #[trigger] status::first_old_enough_and_locked(
                        facts.versions->Ok_0,
                        facts.locked,
                        min_age,
                        now,
                        k,
                    )
                    &&& lines == report::aged_lines(
                        dep.name,
                        held.num,
                        time::whole_days_since(now, held.created_at),
                        held.created_at,
                        verbose,
                    )
                }
        }),
{
    let listed = facts.versions->Ok_0;
    if status::age_of(listed[0], now) >= min_age {
        lemma_newest_goes_first(listed, min_age, now);
        status::an_aged_dependency_is_told_by_its_newest_aged_lock_entry(dep, facts, min_age, now);
    }
}

/// A dependency that is left alone for a settled reason, or because nothing is known of it, is told
/// with that reason and nothing else.
pub proof fn a_settled_dependency_is_announced(
    dep: manifest::DependencyModel,
    facts: FactsModel,
    min_age: int,
    dry_run: bool,
    verbose: bool,
    now: Instant,
)
    ensures
        ({
            let lines = plan_lines(dep, facts, min_age, dry_run, verbose, now);
            let asked = dep.kind is Registry && !dep.kind->pinned;
            &&& dep.kind is Path ==> lines == seq![report::skip_line(dep.name, SkipModel::Path)]
            &&& dep.kind is Git ==> lines == seq![report::skip_line(dep.name, SkipModel::Git)]
            &&& dep.kind is Registry && dep.kind->pinned ==> lines == seq![
                report::skip_line(dep.name, SkipModel::Pinned(dep.kind->req)),
            ]
            &&& asked && facts.versions is Err ==> lines == seq![
                report::skip_line(
                    dep.name,
                    SkipModel::LookupFailed(facts.versions->Err_0.message()),
                ),
            ]
            &&& asked && facts.versions is Ok && facts.versions->Ok_0.len() == 0 ==> lines == seq![
                report::skip_line(dep.name, SkipModel::NoStable),
            ]
        }),
{
}

/// A version that was taken is told unless it is the one that was announced.
pub proof fn a_retry_that_was_taken_is_told(attempt: AttemptModel)
    ensures
        attempt.at == 0 ==> attempt.taken_lines().len() == 0,
        attempt.at != 0 ==> attempt.taken_lines() == seq![
            LineModel::Stdout(
                "    ✓ pinned "@ + (attempt.name + " "@ + attempt.candidates[attempt.at].num
                    + " ("@ + text::decimal(attempt.candidates[attempt.at].age)
                    + " days old)"@),
            ),
        ],
{
}

/// A version that was refused is told with the error exactly where details are wanted. Then the
/// next version is announced, or, after the last, how many were tried of how many, and the error.
pub proof fn a_refused_version_is_told(attempt: AttemptModel, error: Seq<char>, verbose: bool)
    ensures
        ({
            let lines = attempt.refused_lines(error, verbose);
            let start: int = if verbose {
                1
            } else {
                0
            };
            let next = attempt.candidates[attempt.at + 1];
            let tried = attempt.candidates.len() as int;
            let last = attempt.at + 1 >= tried;
            &&& lines.len() == start + if last {
                2int
            } else {
                1
            }
            &&& verbose ==> lines[0] == LineModel::Stderr(
                "      cargo update failed for "@ + attempt.name + " "@
                    + attempt.candidates[attempt.at].num + ": "@ + error,
            )
            &&& !last ==> lines[start] == LineModel::Stdout(
                "    → retrying with "@ + (attempt.name + " "@ + next.num + " ("@
                    + text::decimal(next.age) + " days old)"@) + "..."@,
            )
            &&& last && attempt.eligible > tried ==> lines[start] == LineModel::Stderr(
                "    ! no compatible age-eligible version for "@ + attempt.name + (" (tried "@
                    + text::decimal(tried) + " of "@ + text::decimal(attempt.eligible)
                    + " eligible versions; increase MAX_UPDATE_ATTEMPTS to try more)"@),
            )
            &&& last && attempt.eligible <= tried ==> lines[start] == LineModel::Stderr(
                "    ! no compatible age-eligible version for "@ + attempt.name + (
                " (tried all "@ + text::decimal(tried) + " eligible versions)"@),
            )
            &&& last ==> lines[start + 1] == LineModel::Stderr("      last error: "@ + error)
        }),
{
}

/// Plans, progress and candidates are seen whole.
pub proof fn plans_and_progress_are_seen_whole(
    plan: Plan,
    progress: Progress,
    candidates: Seq<Candidate>,
)
    ensures
        plan is Skip <==> plan@ is Skip,
        plan is WouldUpdate <==> plan@ is WouldUpdate,
        plan matches Plan::Update(attempt) ==> plan@ == PlanModel::Update(attempt@),
        progress is Updated <==> progress@ is Updated,
        progress is GaveUp <==> progress@ is GaveUp,
        progress matches Progress::Again(attempt) ==> progress@ == ProgressModel::Again(attempt@),
        candidates_view(candidates).len() == candidates.len(),
        forall|i: int|
            0 <= i < candidates.len() ==> (#[trigger] candidates_view(candidates)[i]).num
                == candidates[i].num@ && candidates_view(candidates)[i].age == candidates[i].age,
{
}

} // verus!
