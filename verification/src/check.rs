//! The check that a lock file holds no release that is too fresh.

use crate::manifest;
use crate::manifest::Dependency;
use crate::report;
use crate::report::{
    write_age_line, write_aged, write_heading, write_label, write_published, write_skip, Line,
    LineModel,
};
use crate::status;
use crate::status::{classify_dep, DepStatus, Facts, FactsModel, StatusModel};
use crate::text;
use crate::text::{i64_text, usize_text};
use crate::time;
use crate::time::{Instant, Timestamp};
use crate::versions::VersionModel;
use vstd::prelude::*;
use vstd::string::*;

verus! {

/// A check of some dependencies, one after another: how many of those before the present one
/// stand how.
#[derive(Debug)]
pub struct Check {
    count: usize,
    fresh: usize,
    aged: usize,
    skipped: usize,
}

/// The mathematical value of a [`Check`].
pub struct CheckModel {
    pub count: int,
    pub fresh: int,
    pub aged: int,
    pub skipped: int,
}

impl View for Check {
    type V = CheckModel;

    closed spec fn view(&self) -> CheckModel {
        CheckModel {
            count: self.count as int,
            fresh: self.fresh as int,
            aged: self.aged as int,
            skipped: self.skipped as int,
        }
    }
}

/// A check with the lines that say what has happened.
#[derive(Debug)]
pub struct CheckStep {
    pub lines: Vec<Line>,
    pub check: Check,
}

/// The lines of a check and the exit code of the program.
#[derive(Debug)]
pub struct CheckReport {
    pub lines: Vec<Line>,
    pub code: i32,
}

/// The line that says which version a dependency would go to.
pub open spec fn would_pin_line(name: Seq<char>, top: Seq<char>, age: int, at: Instant) -> LineModel {
    LineModel::Stdout(
        "      would pin to "@ + name + " "@ + top + " ("@ + text::decimal(age)
            + " days old, published "@ + time::rfc3339_form(at.secs, at.nanos) + ")"@,
    )
}

/// The lines on a dependency that is too fresh.
pub open spec fn fresh_lines(
    name: Seq<char>,
    status: StatusModel,
    min_age: int,
    verbose: bool,
) -> Seq<LineModel> {
    let age = match status->locked_age {
        Some(days) => text::decimal(days),
        None => "?"@,
    };
    let line = report::age_line(
        "  ✓ "@,
        report::label(name, status->locked_version),
        age,
        " days old, TOO FRESH (min-age "@ + text::decimal(min_age) + ")"@,
    );
    let published = match status->locked_published {
        Some(at) => seq![report::published_line(at)],
        None => Seq::empty(),
    };
    let would = would_pin_line(
        name,
        status->eligible_top,
        status->eligible_top_age,
        status->eligible_top_published,
    );
    if verbose {
        seq![line] + published + seq![would]
    } else {
        seq![line]
    }
}

/// The lines on one dependency.
pub open spec fn status_lines(
    name: Seq<char>,
    status: StatusModel,
    min_age: int,
    verbose: bool,
) -> Seq<LineModel> {
    match status {
        StatusModel::Fresh { .. } => fresh_lines(name, status, min_age, verbose),
        StatusModel::Aged { version, age, published } => report::aged_lines(
            name,
            version,
            age,
            published,
            verbose,
        ),
        StatusModel::Skipped(reason) => seq![report::skip_line(name, reason)],
    }
}

/// How the dependencies stand, each by its own facts.
pub open spec fn statuses(
    deps: Seq<manifest::DependencyModel>,
    facts: Seq<FactsModel>,
    min_age: int,
    now: Instant,
) -> Seq<StatusModel> {
    Seq::new(deps.len(), |i: int| status::status_of(deps[i], facts[i], min_age, now))
}

/// The lines on the dependencies, one after another.
pub open spec fn all_status_lines(
    deps: Seq<manifest::DependencyModel>,
    statuses: Seq<StatusModel>,
    min_age: int,
    verbose: bool,
) -> Seq<LineModel>
    decreases deps.len(),
{
    if deps.len() == 0 {
        Seq::empty()
    } else {
        all_status_lines(deps.drop_last(), statuses.drop_last(), min_age, verbose) + status_lines(
            deps.last().name,
            statuses.last(),
            min_age,
            verbose,
        )
    }
}

/// How many dependencies are too fresh.
pub open spec fn count_fresh(statuses: Seq<StatusModel>) -> nat {
    statuses.filter(|s: StatusModel| s is Fresh).len()
}

/// How many dependencies are held at a version that is old enough.
pub open spec fn count_aged(statuses: Seq<StatusModel>) -> nat {
    statuses.filter(|s: StatusModel| s is Aged).len()
}

/// How many dependencies are left alone.
pub open spec fn count_skipped(statuses: Seq<StatusModel>) -> nat {
    statuses.filter(|s: StatusModel| s is Skipped).len()
}

/// The lines at the end of a check.
pub open spec fn summary_lines(fresh: int, aged: int, skipped: int, min_age: int) -> Seq<LineModel> {
    let line = LineModel::Stdout(
        "Check: "@ + text::decimal(fresh) + " too fresh, "@ + text::decimal(aged) + " ok, "@
            + text::decimal(skipped) + " skipped."@,
    );
    let error = LineModel::Stderr(
        "error: "@ + text::decimal(fresh) + " direct dependency(ies) violate min-age of "@
            + text::decimal(min_age) + " days."@,
    );
    if fresh > 0 {
        seq![line, error]
    } else {
        seq![line]
    }
}

/// The exit code of a check.
pub open spec fn exit_code(fresh: int) -> int {
    if fresh > 0 {
        1
    } else {
        0
    }
}

fn write_would_pin(name: &str, top: &str, age: i64, at: &Timestamp) -> (line: Line)
    ensures
        line@ == would_pin_line(name@, top@, age as int, at@),
{
    let mut out: String = "      would pin to ".to_owned();
    out.append(name);
    out.append(" ");
    out.append(top);
    out.append(" (");
    out.append(i64_text(age).as_str());
    out.append(" days old, published ");
    out.append(at.rfc3339().as_str());
    out.append(")");
    Line::Stdout(out)
}

/// Writes the lines on one dependency.
pub fn write_status(name: &str, status: &DepStatus, min_age: i64, verbose: bool) -> (lines: Vec<
    Line,
>)
    ensures
        report::lines_view(lines@) == status_lines(name@, status@, min_age as int, verbose),
{
    match status {
        DepStatus::Fresh {
            locked_version,
            locked_age,
            locked_published,
            eligible_top,
            eligible_top_age,
            eligible_top_published,
        } => {
            let age: String = match locked_age {
                Some(days) => i64_text(*days),
                None => "?".to_owned(),
            };
            let mut rest: String = " days old, TOO FRESH (min-age ".to_owned();
            rest.append(i64_text(min_age).as_str());
            rest.append(")");
            let mut lines: Vec<Line> = Vec::new();
            lines.push(
                write_age_line(
                    "  ✓ ",
                    write_label(name, locked_version.as_str()).as_str(),
                    age.as_str(),
                    rest.as_str(),
                ),
            );
            if verbose {
                if let Some(at) = locked_published {
                    lines.push(write_published(at));
                }
                lines.push(
                    write_would_pin(
                        name,
                        eligible_top.as_str(),
                        *eligible_top_age,
                        eligible_top_published,
                    ),
                );
            }
            assert(report::lines_view(lines@) == status_lines(
                name@,
                status@,
                min_age as int,
                verbose,
            ));
            lines
        },
        DepStatus::Aged { version, age, published } => write_aged(
            name,
            version.as_str(),
            *age,
            published,
            verbose,
        ),
        DepStatus::Skipped(reason) => {
            let mut lines: Vec<Line> = Vec::new();
            lines.push(write_skip(name, reason));
            assert(report::lines_view(lines@) == seq![report::skip_line(name@, reason@)]);
            lines
        },
    }
}

impl CheckModel {
    /// The place of the present dependency: every one before it counts once.
    pub open spec fn at(self) -> int {
        self.fresh + self.aged + self.skipped
    }

    /// The counts belong to some of the dependencies.
    pub open spec fn wf(self) -> bool {
        &&& 0 <= self.fresh
        &&& 0 <= self.aged
        &&& 0 <= self.skipped
        &&& self.at() <= self.count
    }

    /// The check at the next dependency, the present one standing as `status` says.
    pub open spec fn counted(self, status: StatusModel) -> CheckModel {
        match status {
            StatusModel::Fresh { .. } => CheckModel { fresh: self.fresh + 1, ..self },
            StatusModel::Aged { .. } => CheckModel { aged: self.aged + 1, ..self },
            StatusModel::Skipped(_) => CheckModel { skipped: self.skipped + 1, ..self },
        }
    }

    /// The check has counted the dependencies that stand as `statuses` say.
    pub open spec fn counts(self, statuses: Seq<StatusModel>) -> bool {
        &&& self.fresh == count_fresh(statuses)
        &&& self.aged == count_aged(statuses)
        &&& self.skipped == count_skipped(statuses)
    }
}

impl Check {
    #[verifier::type_invariant]
    closed spec fn valid(self) -> bool {
        self@.wf()
    }

    /// Starts a check of `count` dependencies.
    pub fn start(count: usize, min_age: i64) -> (step: CheckStep)
        ensures
            step.check@ == (CheckModel { count: count as int, fresh: 0, aged: 0, skipped: 0 }),
            report::lines_view(step.lines@) == seq![report::heading(count as int, min_age as int)],
    {
        let mut lines: Vec<Line> = Vec::new();
        lines.push(write_heading(count, min_age));
        assert(report::lines_view(lines@) == seq![
            report::heading(count as int, min_age as int),
        ]);
        CheckStep { lines, check: Check { count, fresh: 0, aged: 0, skipped: 0 } }
    }

    /// The place of the dependency whose facts the check waits for, or `None` after the last.
    pub fn next(&self) -> (place: Option<usize>)
        ensures
            match place {
                Some(k) => k == self@.at() && self@.at() < self@.count,
                None => self@.at() == self@.count,
            },
    {
        proof {
            use_type_invariant(self);
        }
        let at: usize = self.fresh + self.aged + self.skipped;
        if at < self.count {
            Some(at)
        } else {
            None
        }
    }

    /// Goes on with the facts on the present dependency, which is `dep`.
    pub fn take_facts(
        self,
        dep: &Dependency,
        facts: &Facts,
        min_age: i64,
        verbose: bool,
        now: &Timestamp,
    ) -> (step: CheckStep)
        requires
            self@.at() < self@.count,
        ensures
            ({
                let status = status::status_of(dep@, facts@, min_age as int, now@);
                &&& step.check@ == self@.counted(status)
                &&& report::lines_view(step.lines@) == status_lines(
                    dep@.name,
                    status,
                    min_age as int,
                    verbose,
                )
            }),
    {
        proof {
            use_type_invariant(&self);
        }
        let Check { count, fresh, aged, skipped } = self;
        let status: DepStatus = classify_dep(dep, facts, min_age, now);
        let lines: Vec<Line> = write_status(dep.name.as_str(), &status, min_age, verbose);
        let check: Check = match status {
            DepStatus::Fresh { .. } => Check { count, fresh: fresh + 1, aged, skipped },
            DepStatus::Aged { .. } => Check { count, fresh, aged: aged + 1, skipped },
            DepStatus::Skipped(_) => Check { count, fresh, aged, skipped: skipped + 1 },
        };
        CheckStep { lines, check }
    }

    /// Writes the lines at the end of the check and gives the exit code: 1 if a dependency is too
    /// fresh, else 0.
    pub fn finish(&self, min_age: i64) -> (end: CheckReport)
        ensures
            report::lines_view(end.lines@) == summary_lines(
                self@.fresh,
                self@.aged,
                self@.skipped,
                min_age as int,
            ),
            end.code == exit_code(self@.fresh),
    {
        let mut lines: Vec<Line> = Vec::new();
        let mut out: String = "Check: ".to_owned();
        out.append(usize_text(self.fresh).as_str());
        out.append(" too fresh, ");
        out.append(usize_text(self.aged).as_str());
        out.append(" ok, ");
        out.append(usize_text(self.skipped).as_str());
        out.append(" skipped.");
        lines.push(Line::Stdout(out));
        let mut code: i32 = 0;
        if self.fresh > 0 {
            let mut error: String = "error: ".to_owned();
            error.append(usize_text(self.fresh).as_str());
            error.append(" direct dependency(ies) violate min-age of ");
            error.append(i64_text(min_age).as_str());
            error.append(" days.");
            lines.push(Line::Stderr(error));
            code = 1;
        }
        assert(report::lines_view(lines@) == summary_lines(
            self@.fresh,
            self@.aged,
            self@.skipped,
            min_age as int,
        ));
        CheckReport { lines, code }
    }
}

/// The mathematical values of the facts on some dependencies.
pub open spec fn facts_view(facts: Seq<Facts>) -> Seq<FactsModel> {
    facts.map_values(|f: Facts| f@)
}

proof fn lemma_counts_push(statuses: Seq<StatusModel>, status: StatusModel)
    ensures
        count_fresh(statuses.push(status)) == count_fresh(statuses) + (if status is Fresh {
            1int
        } else {
            0
        }),
        count_aged(statuses.push(status)) == count_aged(statuses) + (if status is Aged {
            1int
        } else {
            0
        }),
        count_skipped(statuses.push(status)) == count_skipped(statuses) + (if status is Skipped {
            1int
        } else {
            0
        }),
        count_fresh(statuses) <= statuses.len(),
        count_aged(statuses) <= statuses.len(),
        count_skipped(statuses) <= statuses.len(),
{
    reveal(Seq::filter);
    assert(statuses.push(status).drop_last() == statuses);
    statuses.lemma_filter_len(|s: StatusModel| s is Fresh);
    statuses.lemma_filter_len(|s: StatusModel| s is Aged);
    statuses.lemma_filter_len(|s: StatusModel| s is Skipped);
}

/// Checks all the dependencies, each by its own facts. The exit code is 1 if one of them is
/// too fresh, else 0.
pub fn run_check(
    deps: &Vec<Dependency>,
    facts: &Vec<Facts>,
    min_age: i64,
    verbose: bool,
    now: &Timestamp,
) -> (report: CheckReport)
    requires
        deps@.len() == facts@.len(),
    ensures
        ({
            let found = statuses(
                manifest::deps_view(deps@),
                facts_view(facts@),
                min_age as int,
                now@,
            );
            &&& report::lines_view(report.lines@) == seq![
                report::heading(deps@.len() as int, min_age as int),
            ] + all_status_lines(manifest::deps_view(deps@), found, min_age as int, verbose)
                + summary_lines(
                count_fresh(found) as int,
                count_aged(found) as int,
                count_skipped(found) as int,
                min_age as int,
            )
            &&& report.code == exit_code(count_fresh(found) as int)
        }),
{
    let ghost all = manifest::deps_view(deps@);
    let ghost found = statuses(all, facts_view(facts@), min_age as int, now@);
    let ghost head = seq![report::heading(deps@.len() as int, min_age as int)];
    let start: CheckStep = Check::start(deps.len(), min_age);
    let mut lines: Vec<Line> = start.lines;
    let mut check: Check = start.check;
    proof {
        reveal(Seq::filter);
        assert(report::lines_view(lines@) == head + all_status_lines(
            all.take(0),
            found.take(0),
            min_age as int,
            verbose,
        ));
    }
    let mut i: usize = 0;
    while i < deps.len()
        invariant
            i <= deps.len(),
            deps@.len() == facts@.len(),
            check@.count == deps@.len(),
            check@.at() == i,
            all == manifest::deps_view(deps@),
            found == statuses(all, facts_view(facts@), min_age as int, now@),
            report::lines_view(lines@) == head + all_status_lines(
                all.take(i as int),
                found.take(i as int),
                min_age as int,
                verbose,
            ),
            check@.counts(found.take(i as int)),
        decreases deps.len() - i,
    {
        let ghost before = report::lines_view(lines@);
        let ghost status = found[i as int];
        proof {
            assert(all[i as int] == deps@[i as int]@);
            assert(facts_view(facts@)[i as int] == facts@[i as int]@);
            assert(found.take(i + 1) == found.take(i as int).push(status));
            lemma_counts_push(found.take(i as int), status);
            assert(all.take(i + 1).drop_last() == all.take(i as int));
            assert(found.take(i + 1).drop_last() == found.take(i as int));
        }
        let step: CheckStep = check.take_facts(&deps[i], &facts[i], min_age, verbose, now);
        check = step.check;
        let mut more: Vec<Line> = step.lines;
        let ghost added = report::lines_view(more@);
        lines.append(&mut more);
        proof {
            assert(report::lines_view(lines@) == before + added);
            let a = all_status_lines(
                all.take(i as int),
                found.take(i as int),
                min_age as int,
                verbose,
            );
            assert(head + a + added == head + (a + added));
        }
        i += 1;
    }
    proof {
        assert(all.take(i as int) == all);
        assert(found.take(i as int) == found);
    }
    let mut end: CheckReport = check.finish(min_age);
    let ghost before = report::lines_view(lines@);
    let ghost last = report::lines_view(end.lines@);
    lines.append(&mut end.lines);
    assert(report::lines_view(lines@) == before + last);
    CheckReport { lines, code: end.code }
}

/// A check fails exactly if one of the dependencies is too fresh.
pub proof fn check_fails_exactly_on_a_fresh_dependency(statuses: Seq<StatusModel>)
    ensures
        exit_code(count_fresh(statuses) as int) == 1 <==> exists|i: int|
            0 <= i < statuses.len() && #[trigger] statuses[i] is Fresh,
        exit_code(count_fresh(statuses) as int) == 0 || exit_code(count_fresh(statuses) as int)
            == 1,
{
    let fresh = |s: StatusModel| s is Fresh;
    let found = statuses.filter(fresh);
    if found.len() > 0 {
        statuses.lemma_filter_pred(fresh, 0);
        statuses.lemma_filter_contains_rev(fresh, found[0]);
        let i = choose|i: int| 0 <= i < statuses.len() && statuses[i] == found[0];
        assert(statuses[i] is Fresh);
    } else {
        assert forall|i: int| 0 <= i < statuses.len() implies !(#[trigger] statuses[i] is Fresh) by {
            if statuses[i] is Fresh {
                statuses.lemma_filter_contains(fresh, i);
            }
        }
    }
}

/// The lock file fails the check on a dependency: it comes from the registry without a pin, the
/// lock file holds it, its versions are known, one of them is old enough, and the lock file holds
/// none that is.
pub open spec fn violates(
    dep: manifest::DependencyModel,
    facts: FactsModel,
    min_age: int,
    now: Instant,
) -> bool {
    &&& dep.kind is Registry
    &&& !dep.kind->pinned
    &&& facts.versions is Ok
    &&& facts.locked.len() > 0
    &&& exists|v: VersionModel| #[trigger]
        facts.versions->Ok_0.contains(v) && status::age_of(v, now) >= min_age
    &&& forall|v: VersionModel| #[trigger]
        facts.versions->Ok_0.contains(v) && status::age_of(v, now) >= min_age
            ==> !facts.locked.contains(v.num)
}

/// The exit code is 1 exactly if the lock file fails the check on one of the dependencies.
pub proof fn the_gate_closes_exactly_on_a_violation(
    deps: Seq<manifest::DependencyModel>,
    facts: Seq<FactsModel>,
    min_age: int,
    now: Instant,
)
    requires
        deps.len() == facts.len(),
    ensures
        exit_code(count_fresh(statuses(deps, facts, min_age, now)) as int) == 1 <==> exists|i: int|
            0 <= i < deps.len() && violates(#[trigger] deps[i], facts[i], min_age, now),
{
    let found = statuses(deps, facts, min_age, now);
    check_fails_exactly_on_a_fresh_dependency(found);
    assert forall|i: int| 0 <= i < deps.len() implies (#[trigger] found[i] is Fresh <==> violates(
        deps[i],
        facts[i],
        min_age,
        now,
    )) by {
        status::fresh_means_a_replacement_exists(deps[i], facts[i], min_age, now);
    }
    if exists|i: int| 0 <= i < found.len() && #[trigger] found[i] is Fresh {
        let i = choose|i: int| 0 <= i < found.len() && #[trigger] found[i] is Fresh;
        assert(violates(deps[i], facts[i], min_age, now));
    }
    if exists|i: int| 0 <= i < deps.len() && violates(#[trigger] deps[i], facts[i], min_age, now) {
        let i = choose|i: int|
            0 <= i < deps.len() && violates(#[trigger] deps[i], facts[i], min_age, now);
        assert(found[i] is Fresh);
    }
}

/// A check passes where the lock file holds none of the dependencies.
pub proof fn the_gate_is_open_where_nothing_is_locked(
    deps: Seq<manifest::DependencyModel>,
    facts: Seq<FactsModel>,
    min_age: int,
    now: Instant,
)
    requires
        deps.len() == facts.len(),
        forall|i: int| 0 <= i < facts.len() ==> (#[trigger] facts[i]).locked.len() == 0,
    ensures
        exit_code(count_fresh(statuses(deps, facts, min_age, now)) as int) == 0,
{
    the_gate_closes_exactly_on_a_violation(deps, facts, min_age, now);
    check_fails_exactly_on_a_fresh_dependency(statuses(deps, facts, min_age, now));
}

/// Every dependency is counted once.
pub proof fn every_dependency_is_counted(statuses: Seq<StatusModel>)
    ensures
        count_fresh(statuses) + count_aged(statuses) + count_skipped(statuses) == statuses.len(),
    decreases statuses.len(),
{
    reveal(Seq::filter);
    if statuses.len() > 0 {
        every_dependency_is_counted(statuses.drop_last());
        lemma_counts_push(statuses.drop_last(), statuses.last());
        assert(statuses.drop_last().push(statuses.last()) == statuses);
    }
}

/// A dependency that is too fresh is named with the version that is locked and its age, a question
/// mark where that is not known, and the minimum age. Where details are wanted, the publication of
/// that version follows, if it is known, and then the version that the dependency would go to.
pub proof fn a_fresh_dependency_is_named_with_its_replacement(
    name: Seq<char>,
    status: StatusModel,
    min_age: int,
    verbose: bool,
)
    requires
        status is Fresh,
    ensures
        ({
            let lines = status_lines(name, status, min_age, verbose);
            let known = status->locked_published is Some;
            &&& lines.len() == if !verbose {
                1int
            } else if known {
                3
            } else {
                2
            }
            &&& lines[0] == LineModel::Stdout(
                "  ✓ "@ + text::padded(name + " "@ + status->locked_version, 24) + " — "@ + (
                match status->locked_age {
                    Some(days) => text::decimal(days),
                    None => "?"@,
                }) + (" days old, TOO FRESH (min-age "@ + text::decimal(min_age) + ")"@),
            )
            &&& verbose && known ==> lines[1] == LineModel::Stdout(
                "      (published "@ + time::rfc3339_form(
                    status->locked_published->0.secs,
                    status->locked_published->0.nanos,
                ) + ")"@,
            )
            &&& verbose ==> lines[lines.len() - 1] == LineModel::Stdout(
                "      would pin to "@ + name + " "@ + status->eligible_top + " ("@
                    + text::decimal(status->eligible_top_age) + " days old, published "@
                    + time::rfc3339_form(
                    status->eligible_top_published.secs,
                    status->eligible_top_published.nanos,
                ) + ")"@,
            )
        }),
{
}

/// Any other dependency is told by the one line on why it is left alone, or by the lines on the
/// version that is old enough.
pub proof fn any_other_dependency_is_told_by_its_status(
    name: Seq<char>,
    reason: status::SkipModel,
    version: Seq<char>,
    age: int,
    published: Instant,
    min_age: int,
    verbose: bool,
)
    ensures
        status_lines(name, StatusModel::Skipped(reason), min_age, verbose) == seq![
            report::skip_line(name, reason),
        ],
        status_lines(name, StatusModel::Aged { version, age, published }, min_age, verbose)
            == report::aged_lines(name, version, age, published, verbose),
{
}

/// The dependencies are told one after another, each by the lines on its own status.
pub proof fn dependencies_are_told_one_after_another(
    deps: Seq<manifest::DependencyModel>,
    more: Seq<manifest::DependencyModel>,
    statuses: Seq<StatusModel>,
    further: Seq<StatusModel>,
    dep: manifest::DependencyModel,
    status: StatusModel,
    min_age: int,
    verbose: bool,
)
    requires
        deps.len() == statuses.len(),
        more.len() == further.len(),
    ensures
        all_status_lines(deps + more, statuses + further, min_age, verbose) == all_status_lines(
            deps,
            statuses,
            min_age,
            verbose,
        ) + all_status_lines(more, further, min_age, verbose),
        all_status_lines(seq![dep], seq![status], min_age, verbose) == status_lines(
            dep.name,
            status,
            min_age,
            verbose,
        ),
        all_status_lines(Seq::empty(), Seq::empty(), min_age, verbose).len() == 0,
    decreases more.len(),
{
    let one = seq![dep];
    let its = seq![status];
    assert(one.drop_last() == Seq::<manifest::DependencyModel>::empty());
    assert(its.drop_last() == Seq::<StatusModel>::empty());
    reveal_with_fuel(all_status_lines, 2);
    assert(all_status_lines(one, its, min_age, verbose) == status_lines(
        dep.name,
        status,
        min_age,
        verbose,
    ));
    if more.len() == 0 {
        assert(deps + more == deps);
        assert(statuses + further == statuses);
    } else {
        dependencies_are_told_one_after_another(
            deps,
            more.drop_last(),
            statuses,
            further.drop_last(),
            dep,
            status,
            min_age,
            verbose,
        );
        assert((deps + more).drop_last() == deps + more.drop_last());
        assert((statuses + further).drop_last() == statuses + further.drop_last());
        assert((deps + more).last() == more.last());
        assert((statuses + further).last() == further.last());
        let a = all_status_lines(deps, statuses, min_age, verbose);
        let b = all_status_lines(more.drop_last(), further.drop_last(), min_age, verbose);
        let c = status_lines(more.last().name, further.last(), min_age, verbose);
        assert(a + b + c == a + (b + c));
    }
}

/// Each dependency stands as its own facts say.
pub proof fn each_dependency_stands_by_its_own_facts(
    deps: Seq<manifest::DependencyModel>,
    facts: Seq<FactsModel>,
    min_age: int,
    now: Instant,
    i: int,
)
    requires
        deps.len() == facts.len(),
        0 <= i < deps.len(),
    ensures
        statuses(deps, facts, min_age, now).len() == deps.len(),
        statuses(deps, facts, min_age, now)[i] == status::status_of(
            deps[i],
            facts[i],
            min_age,
            now,
        ),
{
}

/// Each kind of status is counted by itself: the counts of two groups add up, and one dependency
/// counts for the kind that it is of and no other.
pub proof fn each_kind_of_status_is_counted(
    x: Seq<StatusModel>,
    y: Seq<StatusModel>,
    status: StatusModel,
)
    ensures
        count_fresh(x + y) == count_fresh(x) + count_fresh(y),
        count_aged(x + y) == count_aged(x) + count_aged(y),
        count_skipped(x + y) == count_skipped(x) + count_skipped(y),
        count_fresh(seq![status]) == if status is Fresh {
            1nat
        } else {
            0
        },
        count_aged(seq![status]) == if status is Aged {
            1nat
        } else {
            0
        },
        count_skipped(seq![status]) == if status is Skipped {
            1nat
        } else {
            0
        },
        count_fresh(Seq::empty()) == 0,
        count_aged(Seq::empty()) == 0,
        count_skipped(Seq::empty()) == 0,
    decreases y.len(),
{
    reveal(Seq::filter);
    let none = Seq::<StatusModel>::empty();
    lemma_counts_push(none, status);
    assert(none.push(status) == seq![status]);
    if y.len() == 0 {
        assert(x + y == x);
    } else {
        let rest = y.drop_last();
        each_kind_of_status_is_counted(x, rest, status);
        lemma_counts_push(x + rest, y.last());
        lemma_counts_push(rest, y.last());
        assert((x + rest).push(y.last()) == x + y);
        assert(rest.push(y.last()) == y);
    }
}

/// The end of a check tells the three counts, and on the error output how many dependencies are
/// too fresh, exactly if some are. The exit code says the same.
pub proof fn the_end_tells_the_counts(fresh: int, aged: int, skipped: int, min_age: int)
    requires
        fresh >= 0,
    ensures
        ({
            let lines = summary_lines(fresh, aged, skipped, min_age);
            &&& lines.len() == if fresh == 0 {
                1int
            } else {
                2
            }
            &&& lines[0] == LineModel::Stdout(
                "Check: "@ + text::decimal(fresh) + " too fresh, "@ + text::decimal(aged)
                    + " ok, "@ + text::decimal(skipped) + " skipped."@,
            )
            &&& fresh != 0 ==> lines[1] == LineModel::Stderr(
                "error: "@ + text::decimal(fresh) + " direct dependency(ies) violate min-age of "@
                    + text::decimal(min_age) + " days."@,
            )
        }),
        exit_code(fresh) == 0 <==> fresh == 0,
        exit_code(fresh) == 1 <==> fresh != 0,
{
}

/// A check goes through its dependencies one by one, and each counts once, for what it is.
pub proof fn a_check_counts_each_dependency_once(check: CheckModel, status: StatusModel)
    ensures
        ({
            let next = check.counted(status);
            &&& next.count == check.count
            &&& next.fresh - check.fresh == if status is Fresh {
                1int
            } else {
                0
            }
            &&& next.aged - check.aged == if status is Aged {
                1int
            } else {
                0
            }
            &&& next.skipped - check.skipped == if status is Skipped {
                1int
            } else {
                0
            }
            &&& check.at() == check.fresh + check.aged + check.skipped
            &&& next.at() == check.at() + 1
        }),
{
}

/// Facts are seen each in its place.
pub proof fn all_facts_are_seen(facts: Seq<Facts>)
    ensures
        facts_view(facts).len() == facts.len(),
        forall|i: int| 0 <= i < facts.len() ==> #[trigger] facts_view(facts)[i] == facts[i]@,
{
}

} // verus!
