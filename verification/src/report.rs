//! The lines that are shown to the user.

use crate::status;
use crate::status::SkipReason;
use crate::text;
use crate::text::{i64_text, pad, usize_text};
use crate::time;
use crate::time::{Instant, Timestamp};
use vstd::prelude::*;
use vstd::string::*;

verus! {

/// The width of the column with the names.
pub const NAME_WIDTH: usize = 24;

/// A line of output.
#[derive(Debug)]
pub enum Line {
    /// For the standard output.
    Stdout(String),
    /// For the standard error.
    Stderr(String),
}

/// The mathematical value of a [`Line`].
pub enum LineModel {
    Stdout(Seq<char>),
    Stderr(Seq<char>),
}

impl View for Line {
    type V = LineModel;

    open spec fn view(&self) -> LineModel {
        match self {
            Line::Stdout(s) => LineModel::Stdout(s@),
            Line::Stderr(s) => LineModel::Stderr(s@),
        }
    }
}

/// The mathematical values of some lines.
pub open spec fn lines_view(lines: Seq<Line>) -> Seq<LineModel> {
    lines.map_values(|line: Line| line@)
}

/// A name filled up to the width of its column.
pub open spec fn column(name: Seq<char>) -> Seq<char> {
    text::padded(name, NAME_WIDTH as nat)
}

/// A package at a version.
pub open spec fn label(name: Seq<char>, version: Seq<char>) -> Seq<char> {
    name + " "@ + version
}

/// A line with a mark, a name and an age.
pub open spec fn age_line(
    mark: Seq<char>,
    name: Seq<char>,
    age: Seq<char>,
    rest: Seq<char>,
) -> LineModel {
    LineModel::Stdout(mark + column(name) + " — "@ + age + rest)
}

/// The line that says how many dependencies are looked at.
pub open spec fn heading(count: int, min_age: int) -> LineModel {
    LineModel::Stdout(
        "Checking "@ + text::decimal(count) + " dependencies (min-age: "@ + text::decimal(min_age)
            + " days)..."@,
    )
}

/// The line that says when a version was published.
pub open spec fn published_line(at: Instant) -> LineModel {
    LineModel::Stdout("      (published "@ + time::rfc3339_form(at.secs, at.nanos) + ")"@)
}

/// The line that says why a dependency is left alone.
pub open spec fn skip_line(name: Seq<char>, reason: status::SkipModel) -> LineModel {
    match reason {
        status::SkipModel::Path => LineModel::Stdout(
            "  ✗ "@ + column(name) + " (path dep)    — skipping"@,
        ),
        status::SkipModel::Git => LineModel::Stdout(
            "  ✗ "@ + column(name) + " (git dep)     — skipping"@,
        ),
        status::SkipModel::Pinned(req) => LineModel::Stdout(
            "  ✗ "@ + column(name) + " (= "@ + req + ") pinned  — skipping"@,
        ),
        status::SkipModel::NoStable => LineModel::Stderr(
            "  ! "@ + column(name) + " no stable release found — skipping"@,
        ),
        status::SkipModel::NoEligible { newest_age } => LineModel::Stdout(
            "  ✗ "@ + column(name) + " — newest is "@ + text::decimal(newest_age)
                + " days old, no age-eligible version, skipping"@,
        ),
        status::SkipModel::NotLocked => LineModel::Stdout(
            "  ✗ "@ + column(name) + " — not in Cargo.lock, skipping"@,
        ),
        status::SkipModel::LookupFailed(message) => LineModel::Stderr(
            "  ! "@ + column(name) + " crates.io lookup failed ("@ + message + ") — skipping"@,
        ),
    }
}

/// The lines on a dependency that the lock file holds at a version that is old enough.
pub open spec fn aged_lines(
    name: Seq<char>,
    version: Seq<char>,
    age: int,
    published: Instant,
    verbose: bool,
) -> Seq<LineModel> {
    let line = age_line(
        "  = "@,
        label(name, version),
        text::decimal(age),
        " days old, already age-eligible"@,
    );
    if verbose {
        seq![line, published_line(published)]
    } else {
        seq![line]
    }
}

/// Puts texts one after another.
fn join3(a: &str, b: &str, c: &str) -> (r: String)
    ensures
        r@ == a@ + b@ + c@,
{
    let mut out: String = a.to_owned();
    out.append(b);
    out.append(c);
    out
}

/// Names a package at a version.
pub fn write_label(name: &str, version: &str) -> (r: String)
    ensures
        r@ == label(name@, version@),
{
    join3(name, " ", version)
}

/// Writes a line with a mark, a name and an age.
pub fn write_age_line(mark: &str, name: &str, age: &str, rest: &str) -> (line: Line)
    ensures
        line@ == age_line(mark@, name@, age@, rest@),
{
    let mut out: String = join3(mark, pad(name, NAME_WIDTH).as_str(), " — ");
    out.append(age);
    out.append(rest);
    Line::Stdout(out)
}

/// Writes how many dependencies are looked at.
pub fn write_heading(count: usize, min_age: i64) -> (line: Line)
    ensures
        line@ == heading(count as int, min_age as int),
{
    let mut out: String = join3(
        "Checking ",
        usize_text(count).as_str(),
        " dependencies (min-age: ",
    );
    out.append(i64_text(min_age).as_str());
    out.append(" days)...");
    Line::Stdout(out)
}

/// Writes when a version was published.
pub fn write_published(at: &Timestamp) -> (line: Line)
    ensures
        line@ == published_line(at@),
{
    Line::Stdout(join3("      (published ", at.rfc3339().as_str(), ")"))
}

/// Writes why a dependency is left alone.
pub fn write_skip(name: &str, reason: &SkipReason) -> (line: Line)
    ensures
        line@ == skip_line(name@, reason@),
{
    let filled: String = pad(name, NAME_WIDTH);
    let name: &str = filled.as_str();
    match reason {
        SkipReason::Path => Line::Stdout(join3("  ✗ ", name, " (path dep)    — skipping")),
        SkipReason::Git => Line::Stdout(join3("  ✗ ", name, " (git dep)     — skipping")),
        SkipReason::Pinned(req) => {
            let mut out: String = join3("  ✗ ", name, " (= ");
            out.append(req.as_str());
            out.append(") pinned  — skipping");
            Line::Stdout(out)
        },
        SkipReason::NoStable => Line::Stderr(
            join3("  ! ", name, " no stable release found — skipping"),
        ),
        SkipReason::NoEligible { newest_age } => {
            let mut out: String = join3("  ✗ ", name, " — newest is ");
            out.append(i64_text(*newest_age).as_str());
            out.append(" days old, no age-eligible version, skipping");
            Line::Stdout(out)
        },
        SkipReason::NotLocked => Line::Stdout(
            join3("  ✗ ", name, " — not in Cargo.lock, skipping"),
        ),
        SkipReason::LookupFailed(message) => {
            let mut out: String = join3("  ! ", name, " crates.io lookup failed (");
            out.append(message.as_str());
            out.append(") — skipping");
            Line::Stderr(out)
        },
    }
}

/// Writes the lines on a dependency that the lock file holds at a version that is old enough.
pub fn write_aged(
    name: &str,
    version: &str,
    age: i64,
    published: &Timestamp,
    verbose: bool,
) -> (lines: Vec<Line>)
    ensures
        lines_view(lines@) == aged_lines(name@, version@, age as int, published@, verbose),
{
    let mut lines: Vec<Line> = Vec::new();
    lines.push(
        write_age_line(
            "  = ",
            write_label(name, version).as_str(),
            i64_text(age).as_str(),
            " days old, already age-eligible",
        ),
    );
    if verbose {
        lines.push(write_published(published));
    }
    assert(lines_view(lines@) == aged_lines(name@, version@, age as int, published@, verbose));
    lines
}

/// What is said of a dependency that is left alone names it, filled up to its column, and says
/// why. A dependency whose versions are not known is reported as an error.
pub proof fn a_dependency_left_alone_is_named_with_the_reason(
    name: Seq<char>,
    req: Seq<char>,
    newest_age: int,
    message: Seq<char>,
)
    ensures
        skip_line(name, status::SkipModel::Path) == LineModel::Stdout(
            "  ✗ "@ + text::padded(name, 24) + " (path dep)    — skipping"@,
        ),
        skip_line(name, status::SkipModel::Git) == LineModel::Stdout(
            "  ✗ "@ + text::padded(name, 24) + " (git dep)     — skipping"@,
        ),
        skip_line(name, status::SkipModel::Pinned(req)) == LineModel::Stdout(
            "  ✗ "@ + text::padded(name, 24) + " (= "@ + req + ") pinned  — skipping"@,
        ),
        skip_line(name, status::SkipModel::NoStable) == LineModel::Stderr(
            "  ! "@ + text::padded(name, 24) + " no stable release found — skipping"@,
        ),
        skip_line(name, status::SkipModel::NoEligible { newest_age }) == LineModel::Stdout(
            "  ✗ "@ + text::padded(name, 24) + " — newest is "@ + text::decimal(newest_age)
                + " days old, no age-eligible version, skipping"@,
        ),
        skip_line(name, status::SkipModel::NotLocked) == LineModel::Stdout(
            "  ✗ "@ + text::padded(name, 24) + " — not in Cargo.lock, skipping"@,
        ),
        skip_line(name, status::SkipModel::LookupFailed(message)) == LineModel::Stderr(
            "  ! "@ + text::padded(name, 24) + " crates.io lookup failed ("@ + message
                + ") — skipping"@,
        ),
{
}

/// A dependency at a version that is old enough is named with the version and its age, and with
/// the publication exactly where details are wanted.
pub proof fn an_aged_dependency_is_named_with_its_age(
    name: Seq<char>,
    version: Seq<char>,
    age: int,
    published: Instant,
    verbose: bool,
)
    ensures
        ({
            let lines = aged_lines(name, version, age, published, verbose);
            &&& lines.len() == if verbose {
                2int
            } else {
                1
            }
            &&& lines[0] == LineModel::Stdout(
                "  = "@ + text::padded(name + " "@ + version, 24) + " — "@ + text::decimal(age)
                    + " days old, already age-eligible"@,
            )
            &&& verbose ==> lines[1] == LineModel::Stdout(
                "      (published "@ + time::rfc3339_form(published.secs, published.nanos) + ")"@,
            )
        }),
{
}

/// The heading tells how many dependencies there are and the minimum age.
pub proof fn the_heading_tells_the_count_and_the_age(count: int, min_age: int)
    ensures
        heading(count, min_age) == LineModel::Stdout(
            "Checking "@ + text::decimal(count) + " dependencies (min-age: "@ + text::decimal(
                min_age,
            ) + " days)..."@,
        ),
{
}

/// Lines are seen as they are, each in its place and for its output.
pub proof fn lines_are_seen_whole(lines: Seq<Line>)
    ensures
        lines_view(lines).len() == lines.len(),
        forall|i: int|
            0 <= i < lines.len() ==> #[trigger] lines_view(lines)[i] == match lines[i] {
                Line::Stdout(s) => LineModel::Stdout(s@),
                Line::Stderr(s) => LineModel::Stderr(s@),
            },
{
}

} // verus!
