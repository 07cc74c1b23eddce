//! The course of a whole run.

use crate::check;
use crate::manifest;
use crate::report;
use crate::report::{Line, LineModel};
use crate::rows;
use crate::status::FactsModel;
use crate::text;
use crate::text::{find_char, i64_text, same_text, trim, u128_text, usize_text};
use crate::time::Instant;
use vstd::prelude::*;
use vstd::string::*;

verus! {

/// How many passes a repeated run makes at most.
pub const MAX_ITERATE_PASSES: usize = 10;

/// What the command line asks for, but for the place of the manifest.
#[derive(Debug, Clone, Copy)]
pub struct Options {
    pub min_age: Option<i64>,
    pub dry_run: bool,
    pub verbose: bool,
    pub iterate: bool,
    pub check: bool,
}

/// A run: whether it checks the lock file, makes one pass, or makes passes until one moves
/// nothing. A repeated run holds the number of the pass, from 1, and how many dependencies the
/// passes before it have moved.
#[derive(Debug)]
pub struct Run {
    stage: Stage,
}

#[derive(Debug)]
enum Stage {
    Check,
    Once,
    Repeat { pass: usize, total: u128 },
    Done(i32),
}

/// The mathematical value of a [`Run`].
pub enum RunModel {
    /// It checks the lock file.
    Check,
    /// It makes one pass.
    Once,
    /// It makes passes until one moves nothing.
    Repeat { pass: int, total: int },
    /// It has ended, with this exit code.
    Done(int),
}

impl View for Run {
    type V = RunModel;

    closed spec fn view(&self) -> RunModel {
        match self.stage {
            Stage::Check => RunModel::Check,
            Stage::Once => RunModel::Once,
            Stage::Repeat { pass, total } => RunModel::Repeat {
                pass: pass as int,
                total: total as int,
            },
            Stage::Done(code) => RunModel::Done(code as int),
        }
    }
}

/// What a run waits for.
#[derive(Debug)]
pub enum RunNext {
    /// The exit code of a check.
    Check,
    /// How many dependencies a pass has moved and left alone.
    Pass,
    /// Nothing: the program exits with this code.
    Exit(i32),
}

/// A run with the lines that say what has happened.
#[derive(Debug)]
pub struct RunStep {
    pub lines: Vec<Line>,
    pub run: Run,
}

/// The lines that stand before everything else: that a dry run is not repeated, and where the
/// minimum age comes from.
pub open spec fn first_lines(options: Options, note: Option<Seq<char>>) -> Seq<LineModel> {
    (if options.iterate && options.dry_run {
        seq![
            LineModel::Stderr(
                "note: --iterate has no effect with --dry-run; running a single pass."@,
            ),
        ]
    } else {
        Seq::empty()
    }) + (match note {
        Some(s) => seq![LineModel::Stdout(s)],
        None => Seq::empty(),
    })
}

/// The counts of a pass in words.
pub open spec fn counts_text(updated: int, skipped: int) -> Seq<char> {
    text::decimal(updated) + " updated, "@ + text::decimal(skipped) + " skipped."@
}

/// The line at the end of a run of one pass.
pub open spec fn summary_line(updated: int, skipped: int) -> LineModel {
    LineModel::Stdout("Summary: "@ + counts_text(updated, skipped))
}

/// The line at the start of a pass of a repeated run.
pub open spec fn pass_line(pass: int) -> LineModel {
    LineModel::Stdout("=== Pass "@ + text::decimal(pass) + " ==="@)
}

/// The lines at the end of a pass of a repeated run, `total` dependencies having been moved in
/// all. They say so where it is the last pass, and else begin the next.
pub open spec fn pass_end_lines(pass: int, total: int, updated: int, skipped: int) -> Seq<
    LineModel,
> {
    let counts = LineModel::Stdout(
        "Pass "@ + text::decimal(pass) + " summary: "@ + counts_text(updated, skipped),
    );
    let last = if updated == 0 {
        LineModel::Stdout(
            "Converged after "@ + text::decimal(pass) + " pass(es). Total updates applied: "@
                + text::decimal(total) + "."@,
        )
    } else if pass == MAX_ITERATE_PASSES {
        LineModel::Stdout(
            "Stopped after "@ + text::decimal(MAX_ITERATE_PASSES as int)
                + " passes (cap reached). Total updates applied: "@ + text::decimal(total) + "."@,
        )
    } else {
        pass_line(pass + 1)
    };
    seq![counts, last]
}

impl RunModel {
    /// A repeated run is at one of the passes allowed.
    pub open spec fn wf(self) -> bool {
        self matches RunModel::Repeat { pass, total } ==> {
            &&& 1 <= pass <= MAX_ITERATE_PASSES
            &&& 0 <= total <= (pass - 1) * 0xffff_ffff_ffff_ffff
        }
    }

    /// A run with the given options at its start. A check goes before everything else, and a dry
    /// run is never repeated.
    pub open spec fn started(options: Options) -> RunModel {
        if options.check {
            RunModel::Check
        } else if options.iterate && !options.dry_run {
            RunModel::Repeat { pass: 1, total: 0 }
        } else {
            RunModel::Once
        }
    }

    /// The run has a pass ahead.
    pub open spec fn wants_pass(self) -> bool {
        self is Once || self is Repeat
    }

    /// The run after a check with the given exit code.
    pub open spec fn checked(self, code: int) -> RunModel {
        RunModel::Done(code)
    }

    /// The run after a pass that has moved `updated` dependencies. A repeated run goes on only if
    /// that is more than none and passes are left.
    pub open spec fn passed(self, updated: int) -> RunModel {
        match self {
            RunModel::Repeat { pass, total } => if updated == 0 || pass == MAX_ITERATE_PASSES {
                RunModel::Done(0)
            } else {
                RunModel::Repeat { pass: pass + 1, total: total + updated }
            },
            _ => RunModel::Done(0),
        }
    }

    /// The lines at the end of a pass.
    pub open spec fn passed_lines(self, updated: int, skipped: int) -> Seq<LineModel> {
        match self {
            RunModel::Repeat { pass, total } => pass_end_lines(
                pass,
                total + updated,
                updated,
                skipped,
            ),
            _ => seq![summary_line(updated, skipped)],
        }
    }
}

fn write_counts(start: &str, updated: usize, skipped: usize) -> (r: String)
    ensures
        r@ == start@ + counts_text(updated as int, skipped as int),
{
    let mut counts: String = usize_text(updated);
    counts.append(" updated, ");
    counts.append(usize_text(skipped).as_str());
    counts.append(" skipped.");
    let mut out: String = start.to_owned();
    out.append(counts.as_str());
    out
}

fn write_pass(pass: usize) -> (line: Line)
    ensures
        line@ == pass_line(pass as int),
{
    let mut out: String = "=== Pass ".to_owned();
    out.append(usize_text(pass).as_str());
    out.append(" ===");
    Line::Stdout(out)
}

fn write_pass_end(pass: usize, total: u128, updated: usize, skipped: usize) -> (lines: Vec<Line>)
    requires
        1 <= pass <= MAX_ITERATE_PASSES,
    ensures
        report::lines_view(lines@) == pass_end_lines(
            pass as int,
            total as int,
            updated as int,
            skipped as int,
        ),
{
    let mut start: String = "Pass ".to_owned();
    start.append(usize_text(pass).as_str());
    start.append(" summary: ");
    let mut lines: Vec<Line> = Vec::new();
    lines.push(Line::Stdout(write_counts(start.as_str(), updated, skipped)));
    if updated == 0 {
        let mut out: String = "Converged after ".to_owned();
        out.append(usize_text(pass).as_str());
        out.append(" pass(es). Total updates applied: ");
        out.append(u128_text(total).as_str());
        out.append(".");
        lines.push(Line::Stdout(out));
    } else if pass == MAX_ITERATE_PASSES {
        let mut out: String = "Stopped after ".to_owned();
        out.append(usize_text(MAX_ITERATE_PASSES).as_str());
        out.append(" passes (cap reached). Total updates applied: ");
        out.append(u128_text(total).as_str());
        out.append(".");
        lines.push(Line::Stdout(out));
    } else {
        lines.push(write_pass(pass + 1));
    }
    assert(report::lines_view(lines@) == pass_end_lines(
        pass as int,
        total as int,
        updated as int,
        skipped as int,
    ));
    lines
}

impl Run {
    #[verifier::type_invariant]
    closed spec fn valid(self) -> bool {
        self@.wf()
    }

    /// Starts a run. `note` says where the minimum age comes from, if that needs saying.
    pub fn start(options: &Options, note: Option<String>) -> (step: RunStep)
        ensures
            step.run@ == RunModel::started(*options),
            report::lines_view(step.lines@) == first_lines(*options, text::option_view(note)) + (
            if RunModel::started(*options) is Repeat {
                seq![pass_line(1)]
            } else {
                Seq::empty()
            }),
    {
        let ghost said = text::option_view(note);
        let mut lines: Vec<Line> = Vec::new();
        if options.iterate && options.dry_run {
            lines.push(
                Line::Stderr(
                    "note: --iterate has no effect with --dry-run; running a single pass.".to_owned(),
                ),
            );
        }
        if let Some(s) = note {
            lines.push(Line::Stdout(s));
        }
        assert(report::lines_view(lines@) == first_lines(*options, said));
        let ghost before = report::lines_view(lines@);
        let stage: Stage = if options.check {
            Stage::Check
        } else if options.iterate && !options.dry_run {
            lines.push(write_pass(1));
            assert(report::lines_view(lines@) == before + seq![pass_line(1)]);
            Stage::Repeat { pass: 1, total: 0 }
        } else {
            Stage::Once
        };
        RunStep { lines, run: Run { stage } }
    }

    /// A run that could not start, for the given reason. It exits with 1.
    pub fn failed(reason: &str) -> (step: RunStep)
        ensures
            step.run@ == RunModel::Done(1),
            report::lines_view(step.lines@) == seq![LineModel::Stderr("error: "@ + reason@)],
    {
        let mut out: String = "error: ".to_owned();
        out.append(reason);
        let mut lines: Vec<Line> = Vec::new();
        lines.push(Line::Stderr(out));
        assert(report::lines_view(lines@) == seq![LineModel::Stderr("error: "@ + reason@)]);
        RunStep { lines, run: Run { stage: Stage::Done(1) } }
    }

    /// What the run waits for.
    pub fn next(&self) -> (next: RunNext)
        ensures
            match next {
                RunNext::Check => self@ is Check,
                RunNext::Pass => self@.wants_pass(),
                RunNext::Exit(code) => self@ == RunModel::Done(code as int),
            },
    {
        match &self.stage {
            Stage::Check => RunNext::Check,
            Stage::Once => RunNext::Pass,
            Stage::Repeat { .. } => RunNext::Pass,
            Stage::Done(code) => RunNext::Exit(*code),
        }
    }

    /// Goes on after a check, whose exit code is that of the run.
    pub fn take_check(self, code: i32) -> (step: RunStep)
        requires
            self@ is Check,
        ensures
            step.run@ == self@.checked(code as int),
            report::lines_view(step.lines@) == Seq::<LineModel>::empty(),
    {
        let lines: Vec<Line> = Vec::new();
        assert(report::lines_view(lines@) == Seq::<LineModel>::empty());
        RunStep { lines, run: Run { stage: Stage::Done(code) } }
    }

    /// Goes on after a pass, which has moved and left alone so many dependencies.
    pub fn take_pass(self, updated: usize, skipped: usize) -> (step: RunStep)
        requires
            self@.wants_pass(),
        ensures
            step.run@ == self@.passed(updated as int),
            report::lines_view(step.lines@) == self@.passed_lines(updated as int, skipped as int),
    {
        proof {
            use_type_invariant(&self);
        }
        match self.stage {
            Stage::Repeat { pass, total } => {
                let total: u128 = total + updated as u128;
                let lines: Vec<Line> = write_pass_end(pass, total, updated, skipped);
                let stage: Stage = if updated == 0 || pass == MAX_ITERATE_PASSES {
                    Stage::Done(0)
                } else {
                    Stage::Repeat { pass: pass + 1, total }
                };
                RunStep { lines, run: Run { stage } }
            },
            _ => {
                let mut lines: Vec<Line> = Vec::new();
                lines.push(Line::Stdout(write_counts("Summary: ", updated, skipped)));
                assert(report::lines_view(lines@) == seq![
                    summary_line(updated as int, skipped as int),
                ]);
                RunStep { lines, run: Run { stage: Stage::Done(0) } }
            },
        }
    }
}

/// What a run comes to by passes that move so many dependencies each, as long as it has a pass
/// ahead.
pub open spec fn after_passes(run: RunModel, updates: Seq<nat>) -> RunModel
    decreases updates.len(),
{
    if updates.len() == 0 || !run.wants_pass() {
        run
    } else {
        after_passes(run.passed(updates[0] as int), updates.skip(1))
    }
}

/// How many of these passes the run makes.
pub open spec fn passes_made(run: RunModel, updates: Seq<nat>) -> int
    decreases updates.len(),
{
    if updates.len() == 0 || !run.wants_pass() {
        0
    } else {
        1 + passes_made(run.passed(updates[0] as int), updates.skip(1))
    }
}

/// The index of the first pass that moves nothing, or the number of passes.
pub open spec fn first_at_rest(updates: Seq<nat>) -> int {
    rows::first_where(updates, |n: nat| n == 0)
}

/// How many dependencies some passes have moved in all.
pub open spec fn sum(updates: Seq<nat>) -> int
    decreases updates.len(),
{
    if updates.len() == 0 {
        0
    } else {
        updates[0] + sum(updates.skip(1))
    }
}

proof fn lemma_repeated(pass: int, total: int, updates: Seq<nat>)
    requires
        1 <= pass <= MAX_ITERATE_PASSES,
    ensures
        ({
            let run = RunModel::Repeat { pass, total };
            let most = rows::smaller(first_at_rest(updates) + 1, MAX_ITERATE_PASSES - pass + 1);
            &&& passes_made(run, updates) == rows::smaller(most, updates.len() as int)
            &&& after_passes(run, updates) == if updates.len() < most {
                RunModel::Repeat { pass: pass + updates.len(), total: total + sum(updates) }
            } else {
                RunModel::Done(0)
            }
        }),
    decreases updates.len(),
{
    rows::lemma_first_where_found(updates, |n: nat| n == 0);
    if updates.len() > 0 {
        let rest = updates.skip(1);
        let next = RunModel::Repeat { pass, total }.passed(updates[0] as int);
        rows::lemma_first_where_found(rest, |n: nat| n == 0);
        if next is Repeat {
            lemma_repeated(pass + 1, total + updates[0], rest);
        } else {
            assert(after_passes(next, rest) == next);
            assert(passes_made(next, rest) == 0);
        }
    }
}

/// A repeated run makes passes up to the first that moves nothing, but no more than the cap, and
/// then exits with 0. Until then it is at the pass after those made, and counts what they have
/// moved.
pub proof fn a_repeated_run_ends_at_rest_or_at_the_cap(options: Options, updates: Seq<nat>)
    requires
        options.iterate,
        !options.dry_run,
        !options.check,
    ensures
        ({
            let most = rows::smaller(first_at_rest(updates) + 1, MAX_ITERATE_PASSES as int);
            let run = RunModel::started(options);
            &&& passes_made(run, updates) == rows::smaller(most, updates.len() as int)
            &&& after_passes(run, updates) == if updates.len() < most {
                RunModel::Repeat { pass: updates.len() as int + 1, total: sum(updates) }
            } else {
                RunModel::Done(0)
            }
        }),
{
    lemma_repeated(1, 0, updates);
}

/// A run that is neither a check nor repeated makes exactly one pass, ends with the summary of
/// that pass, and exits with 0.
pub proof fn any_other_run_makes_one_pass(
    options: Options,
    updated: nat,
    skipped: nat,
    more: Seq<nat>,
)
    requires
        !options.check,
        !options.iterate || options.dry_run,
    ensures
        RunModel::started(options).wants_pass(),
        passes_made(RunModel::started(options), seq![updated] + more) == 1,
        after_passes(RunModel::started(options), seq![updated] + more) == RunModel::Done(0),
        RunModel::started(options).passed_lines(updated as int, skipped as int) == seq![
            summary_line(updated as int, skipped as int),
        ],
{
    let updates = seq![updated] + more;
    assert(updates[0] == updated);
    reveal_with_fuel(passes_made, 2);
    reveal_with_fuel(after_passes, 2);
}

/// A run that checks makes no pass, and exits with the code of the check: 1 exactly if the lock
/// file fails the check on one of the dependencies, and else 0.
pub proof fn a_check_decides_the_exit_code(
    options: Options,
    deps: Seq<manifest::DependencyModel>,
    facts: Seq<FactsModel>,
    min_age: int,
    now: Instant,
    updates: Seq<nat>,
)
    requires
        options.check,
        deps.len() == facts.len(),
    ensures
        RunModel::started(options) is Check,
        passes_made(RunModel::started(options), updates) == 0,
        RunModel::started(options).checked(
            check::exit_code(
                check::count_fresh(check::statuses(deps, facts, min_age, now)) as int,
            ),
        ) == if exists|i: int|
            0 <= i < deps.len() && check::violates(#[trigger] deps[i], facts[i], min_age, now) {
            RunModel::Done(1)
        } else {
            RunModel::Done(0)
        },
{
    check::the_gate_closes_exactly_on_a_violation(deps, facts, min_age, now);
}

/// However a run without a check ends, it exits with 0.
pub proof fn passes_end_with_zero(options: Options, updates: Seq<nat>)
    requires
        !options.check,
    ensures
        after_passes(RunModel::started(options), updates) matches RunModel::Done(code) ==> code == 0,
        updates.len() >= MAX_ITERATE_PASSES ==> after_passes(RunModel::started(options), updates)
            == RunModel::Done(0),
{
    if options.iterate && !options.dry_run {
        a_repeated_run_ends_at_rest_or_at_the_cap(options, updates);
    } else if updates.len() > 0 {
        assert(updates == seq![updates[0]] + updates.skip(1));
        any_other_run_makes_one_pass(options, updates[0], 0, updates.skip(1));
    }
}

/// The arguments without the name under which Cargo calls the program: where the second
/// argument is `aged`, that one is left out.
pub open spec fn without_subcommand(args: Seq<Seq<char>>) -> Seq<Seq<char>> {
    if args.len() > 1 && args[1] == "aged"@ {
        args.remove(1)
    } else {
        args
    }
}

/// Leaves out the name under which Cargo calls the program.
pub fn strip_subcommand(args: Vec<String>) -> (kept: Vec<String>)
    ensures
        text::texts_view(kept@) == without_subcommand(text::texts_view(args@)),
{
    let mut kept: Vec<String> = args;
    let ghost given = text::texts_view(kept@);
    if kept.len() > 1 && same_text(&kept[1], "aged") {
        assert(given[1] == kept@[1]@);
        kept.remove(1);
        assert(text::texts_view(kept@) == given.remove(1));
    } else if kept.len() > 1 {
        assert(given[1] == kept@[1]@);
    }
    kept
}

/// The arguments with which `cargo` sets a package to a version, but for the place of the
/// manifest, which goes last.
pub open spec fn update_arguments(name: Seq<char>, version: Seq<char>) -> Seq<Seq<char>> {
    seq!["update"@, "-p"@, name, "--precise"@, version, "--manifest-path"@]
}

/// Gives the arguments with which `cargo` sets a package to a version, but for the place of
/// the manifest, which goes last.
pub fn update_args(name: &str, version: &str) -> (args: Vec<String>)
    ensures
        text::texts_view(args@) == update_arguments(name@, version@),
{
    let mut args: Vec<String> = Vec::new();
    args.push("update".to_owned());
    args.push("-p".to_owned());
    args.push(name.to_owned());
    args.push("--precise".to_owned());
    args.push(version.to_owned());
    args.push("--manifest-path".to_owned());
    assert(text::texts_view(args@) == update_arguments(name@, version@));
    args
}

/// The first line of what a command says, without white space around it.
pub open spec fn first_line(said: Seq<char>) -> Seq<char> {
    let s = text::trimmed(said);
    text::trimmed(s.take(rows::first_where(s, |c: char| c == '\n')))
}

/// What is said of an update that failed.
pub open spec fn failure_text(code: Option<i32>, said: Seq<char>) -> Seq<char> {
    "cargo update exited with status "@ + text::decimal(
        match code {
            Some(c) => c as int,
            None => -1,
        },
    ) + ": "@ + (if first_line(said).len() == 0 {
        "no stderr output"@
    } else {
        first_line(said)
    })
}

/// Says why an update failed, by the exit code and the error output of the command.
pub fn update_failure(code: Option<i32>, stderr: &str) -> (message: String)
    ensures
        message@ == failure_text(code, stderr@),
{
    let said: &str = trim(stderr);
    let end: usize = match find_char(said, '\n') {
        Some(k) => k,
        None => said.unicode_len(),
    };
    let line: &str = trim(said.substring_char(0, end));
    assert(said@.subrange(0, end as int) == said@.take(end as int));
    let status: i32 = match code {
        Some(c) => c,
        None => -1,
    };
    let mut out: String = "cargo update exited with status ".to_owned();
    out.append(i64_text(status as i64).as_str());
    out.append(": ");
    if line.is_empty() {
        out.append("no stderr output");
    } else {
        out.append(line);
    }
    out
}

/// A run checks exactly if that is asked for; else it is repeated exactly if that is asked for and
/// it is no dry run; else it makes one pass.
pub proof fn the_options_decide_what_a_run_does(options: Options)
    ensures
        RunModel::started(options) is Check <==> options.check,
        RunModel::started(options) == (RunModel::Repeat { pass: 1, total: 0 }) <==> !options.check
            && options.iterate && !options.dry_run,
        RunModel::started(options) is Once <==> !options.check && !(options.iterate
            && !options.dry_run),
{
}

/// A repeated run goes on after a pass exactly if the pass has moved something and is not the
/// tenth. It then is at the next pass and has counted what was moved. Otherwise it exits with 0.
pub proof fn a_repeated_run_goes_on_while_something_moves(pass: int, total: int, updated: int)
    ensures
        ({
            let next = RunModel::Repeat { pass, total }.passed(updated);
            &&& updated != 0 && pass != 10 ==> next == (RunModel::Repeat {
                pass: pass + 1,
                total: total + updated,
            })
            &&& updated == 0 || pass == 10 ==> next == RunModel::Done(0)
        }),
        RunModel::Once.passed(updated) == RunModel::Done(0),
        RunModel::Check.checked(updated) == RunModel::Done(updated),
        RunModel::Once.wants_pass(),
        (RunModel::Repeat { pass, total }).wants_pass(),
        !RunModel::Check.wants_pass(),
        !RunModel::Done(updated).wants_pass(),
{
}

/// A repeated run makes exactly as many passes as it takes to come to rest, and ten where it does
/// not. Then it exits with 0.
pub proof fn a_repeated_run_makes_as_many_passes_as_it_needs(
    options: Options,
    updates: Seq<nat>,
    k: int,
)
    requires
        options.iterate,
        !options.dry_run,
        !options.check,
        0 <= k < updates.len(),
        forall|i: int| 0 <= i < k ==> #[trigger] updates[i] != 0,
        updates[k] == 0 || k == 9,
        k <= 9,
    ensures
        passes_made(RunModel::started(options), updates) == k + 1,
        after_passes(RunModel::started(options), updates) == RunModel::Done(0),
{
    let rest = |n: nat| n == 0;
    a_repeated_run_ends_at_rest_or_at_the_cap(options, updates);
    rows::lemma_first_where_found(updates, rest);
    if updates[k] == 0 {
        assert forall|i: int| 0 <= i < k implies !rest(#[trigger] updates[i]) by {}
        rows::lemma_first_where(updates, rest, k);
    } else {
        let f = rows::first_where(updates, rest);
        if f <= 9 {
            assert(f < updates.len());
            assert(updates[f] == 0);
        }
    }
}

/// A run begins with the note that a dry run is not repeated, exactly where that was asked for,
/// and then the note on where the minimum age comes from, if there is one.
pub proof fn the_notes_come_first(options: Options, note: Option<Seq<char>>)
    ensures
        ({
            let lines = first_lines(options, note);
            let warned: int = if options.iterate && options.dry_run {
                1
            } else {
                0
            };
            &&& lines.len() == warned + if note is Some {
                1int
            } else {
                0
            }
            &&& warned == 1 ==> lines[0] == LineModel::Stderr(
                "note: --iterate has no effect with --dry-run; running a single pass."@,
            )
            &&& note is Some ==> lines[warned] == LineModel::Stdout(note->0)
        }),
{
}

/// The end of a pass tells its counts. A repeated run then tells that it has come to rest or to
/// the cap, with all that was moved, or begins the next pass.
pub proof fn the_end_of_a_pass_tells_its_counts(
    pass: int,
    total: int,
    updated: int,
    skipped: int,
)
    ensures
        RunModel::Once.passed_lines(updated, skipped) == seq![
            LineModel::Stdout(
                "Summary: "@ + (text::decimal(updated) + " updated, "@ + text::decimal(skipped)
                    + " skipped."@),
            ),
        ],
        ({
            let lines = RunModel::Repeat { pass, total }.passed_lines(updated, skipped);
            &&& lines.len() == 2
            &&& lines[0] == LineModel::Stdout(
                "Pass "@ + text::decimal(pass) + " summary: "@ + (text::decimal(updated)
                    + " updated, "@ + text::decimal(skipped) + " skipped."@),
            )
            &&& updated == 0 ==> lines[1] == LineModel::Stdout(
                "Converged after "@ + text::decimal(pass) + " pass(es). Total updates applied: "@
                    + text::decimal(total) + "."@,
            )
            &&& updated != 0 && pass == 10 ==> lines[1] == LineModel::Stdout(
                "Stopped after "@ + text::decimal(10) + " passes (cap reached). Total updates applied: "@
                    + text::decimal(total + updated) + "."@,
            )
            &&& updated != 0 && pass != 10 ==> lines[1] == LineModel::Stdout(
                "=== Pass "@ + text::decimal(pass + 1) + " ==="@,
            )
        }),
        pass_line(pass) == LineModel::Stdout("=== Pass "@ + text::decimal(pass) + " ==="@),
{
}

/// Where the second argument is `aged`, it goes and all others stay in their order; else all stay.
pub proof fn only_the_subcommand_goes(args: Seq<Seq<char>>)
    ensures
        args.len() >= 2 && args[1] == "aged"@ ==> {
            &&& without_subcommand(args).len() == args.len() - 1
            &&& without_subcommand(args)[0] == args[0]
            &&& forall|i: int|
                2 <= i < args.len() ==> without_subcommand(args)[i - 1] == #[trigger] args[i]
        },
        args.len() < 2 || args[1] != "aged"@ ==> without_subcommand(args) == args,
{
}

/// Cargo is asked to update the package to precisely the version.
pub proof fn cargo_is_asked_for_precisely_the_version(name: Seq<char>, version: Seq<char>)
    ensures
        ({
            let args = update_arguments(name, version);
            &&& args.len() == 6
            &&& args[0] == "update"@
            &&& args[1] == "-p"@ && args[2] == name
            &&& args[3] == "--precise"@ && args[4] == version
            &&& args[5] == "--manifest-path"@
        }),
{
}

/// An update that failed is told by its exit code, or -1 where there is none, and by the first
/// line of the error output that is not blank, without the white space around it.
pub proof fn a_failed_update_is_told_by_the_first_line(
    code: Option<i32>,
    before: Seq<char>,
    line: Seq<char>,
    gap: Seq<char>,
    rest: Seq<char>,
)
    requires
        text::is_blank(before),
        text::is_blank(gap),
        line.len() > 0,
        !text::is_white_space(line[0]),
        !text::is_white_space(line[line.len() - 1]),
        forall|i: int| 0 <= i < line.len() ==> #[trigger] line[i] != '\n',
        forall|i: int| 0 <= i < gap.len() ==> #[trigger] gap[i] != '\n',
        rest.len() > 0 ==> rest[0] == '\n',
    ensures
        failure_text(code, before + line + gap + rest) == "cargo update exited with status "@
            + text::decimal(
            match code {
                Some(c) => c as int,
                None => -1,
            },
        ) + ": "@ + line,
{
    let newline = |c: char| c == '\n';
    let none = Seq::<char>::empty();
    let tail = gap + rest;
    let (_, kept) = lemma_text_and_tail(line, tail);
    assert(before + line + gap + rest == before + (line + tail) + none);
    text::lemma_trimmed_between_blanks(before, line + tail, none);
    let s = text::trimmed(line + tail);
    // What is left of the tail up to its first line break is white space.
    let k = rows::first_where(s, newline);
    rows::lemma_first_where_found(s, newline);
    assert(s == line + kept);
    if k < line.len() {
        assert(s[k] == line[k]);
    }
    let cut = s.take(k);
    let blank = cut.skip(line.len() as int);
    assert(cut == none + line + blank);
    assert forall|i: int| 0 <= i < blank.len() implies text::is_white_space(#[trigger] blank[i]) by {
        let at = line.len() + i;
        assert(blank[i] == s[at]);
        assert(s[at] == kept[i]);
        assert(kept[i] == tail[i]);
        if i >= gap.len() {
            assert(tail[gap.len() as int] == '\n');
            assert(kept[gap.len() as int] == tail[gap.len() as int]);
            assert(s[line.len() as int + gap.len()] == '\n');
            assert(!newline(s[line.len() as int + gap.len()]));
        } else {
            assert(tail[i] == gap[i]);
        }
    }
    text::lemma_trimmed_between_blanks(none, line, blank);
    text::lemma_trimmed_already(line);
}

/// Of a text that begins and ends with no white space, followed by a tail, trimming keeps the text
/// and a beginning of the tail.
proof fn lemma_text_and_tail(line: Seq<char>, tail: Seq<char>) -> (parts: (int, Seq<char>))
    requires
        line.len() > 0,
        !text::is_white_space(line[0]),
        !text::is_white_space(line[line.len() - 1]),
    ensures
        0 <= parts.0 <= tail.len(),
        parts.1 == tail.take(parts.0),
        text::trimmed(line + tail) == line + parts.1,
    decreases tail.len(),
{
    let whole = line + tail;
    if tail.len() > 0 && text::is_white_space(tail.last()) {
        let shorter = tail.drop_last();
        let (n, kept) = lemma_text_and_tail(line, shorter);
        let none = Seq::<char>::empty();
        let end = seq![tail.last()];
        assert(whole == none + (line + shorter) + end);
        text::lemma_trimmed_between_blanks(none, line + shorter, end);
        assert(shorter.take(n) == tail.take(n));
        (n, kept)
    } else {
        assert(whole[0] == line[0]);
        if tail.len() > 0 {
            assert(whole[whole.len() - 1] == tail.last());
        } else {
            assert(whole == line);
        }
        text::lemma_trimmed_already(whole);
        assert(tail.take(tail.len() as int) == tail);
        (tail.len() as int, tail)
    }
}

/// An update that failed without a word says so.
pub proof fn a_failed_update_without_a_word_is_told(code: Option<i32>, said: Seq<char>)
    requires
        text::is_blank(said),
    ensures
        failure_text(code, said) == "cargo update exited with status "@ + text::decimal(
            match code {
                Some(c) => c as int,
                None => -1,
            },
        ) + ": "@ + "no stderr output"@,
{
    let none = Seq::<char>::empty();
    let newline = |c: char| c == '\n';
    assert(said == said + none + none);
    text::lemma_trimmed_between_blanks(said, none, none);
    text::lemma_trimmed_already(none);
    rows::lemma_first_where_found(none, newline);
    assert(none.take(0) == none);
}

} // verus!
