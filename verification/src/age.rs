//! The minimum age of a release, as text.

use crate::rows;
use crate::text;
use crate::text::{debug_text, find_white_space, i64_text, parse_i64, same_text, trim};
use vstd::prelude::*;
use vstd::string::*;

verus! {

/// Why a text is no minimum age.
#[derive(Debug)]
pub enum AgeError {
    /// There is nothing in the text.
    Empty,
    /// The number is negative.
    Negative(i64),
    /// The text is no whole number and has no unit. Holds the text.
    MissingUnit(String),
    /// What stands before the unit is no whole number. Holds that and what is wrong with it.
    InvalidNumber { number: String, reason: String },
    /// The unit is neither days nor weeks. Holds the unit in small letters.
    UnsupportedUnit(String),
    /// The number is one of weeks whose days no `i64` holds.
    TooManyWeeks(i64),
}

/// The mathematical value of an [`AgeError`].
pub enum AgeErrorModel {
    Empty,
    Negative(int),
    MissingUnit(Seq<char>),
    InvalidNumber { number: Seq<char>, reason: Seq<char> },
    UnsupportedUnit(Seq<char>),
    TooManyWeeks(int),
}

impl View for AgeError {
    type V = AgeErrorModel;

    open spec fn view(&self) -> AgeErrorModel {
        match self {
            AgeError::Empty => AgeErrorModel::Empty,
            AgeError::Negative(n) => AgeErrorModel::Negative(*n as int),
            AgeError::MissingUnit(raw) => AgeErrorModel::MissingUnit(raw@),
            AgeError::InvalidNumber { number, reason } => AgeErrorModel::InvalidNumber {
                number: number@,
                reason: reason@,
            },
            AgeError::UnsupportedUnit(unit) => AgeErrorModel::UnsupportedUnit(unit@),
            AgeError::TooManyWeeks(n) => AgeErrorModel::TooManyWeeks(*n as int),
        }
    }
}

/// The number that a text writes, if an `i64` holds it.
pub open spec fn i64_value(s: Seq<char>) -> Option<int> {
    match text::integer_value(s) {
        Some(n) => if i64::MIN <= n <= i64::MAX {
            Some(n)
        } else {
            None
        },
        None => None,
    }
}

/// The units that stand for days.
pub open spec fn is_day_unit(unit: Seq<char>) -> bool {
    unit == "day"@ || unit == "days"@ || unit == "d"@
}

/// The units that stand for weeks.
pub open spec fn is_week_unit(unit: Seq<char>) -> bool {
    unit == "week"@ || unit == "weeks"@ || unit == "w"@
}

/// The days that `number` and `unit` together stand for.
pub open spec fn days_of(number: Seq<char>, unit: Seq<char>) -> Result<int, AgeErrorModel> {
    match i64_value(number) {
        None => Err(AgeErrorModel::InvalidNumber { number, reason: text::integer_error(number) }),
        Some(n) => if n < 0 {
            Err(AgeErrorModel::Negative(n))
        } else if is_day_unit(unit) {
            Ok(n)
        } else if is_week_unit(unit) {
            if n * 7 <= i64::MAX {
                Ok(n * 7)
            } else {
                Err(AgeErrorModel::TooManyWeeks(n))
            }
        } else {
            Err(AgeErrorModel::UnsupportedUnit(unit))
        },
    }
}

/// The days that a text stands for: a whole number of days, or a whole number, white space
/// and a unit. White space around the text and capitals in the unit do not matter.
pub open spec fn read_age(raw: Seq<char>) -> Result<int, AgeErrorModel> {
    let s = text::trimmed(raw);
    let split = rows::first_where(s, |c: char| text::is_white_space(c));
    if s.len() == 0 {
        Err(AgeErrorModel::Empty)
    } else if i64_value(s) is Some {
        if i64_value(s)->0 < 0 {
            Err(AgeErrorModel::Negative(i64_value(s)->0))
        } else {
            Ok(i64_value(s)->0)
        }
    } else if split == s.len() {
        Err(AgeErrorModel::MissingUnit(raw))
    } else {
        days_of(s.take(split), text::lowered(text::trimmed(s.skip(split + 1))))
    }
}

/// Reads a number with a unit in small letters.
pub fn read_days(number: &str, unit: String) -> (result: Result<i64, AgeError>)
    ensures
        match result {
            Ok(days) => days_of(number@, unit@) == Ok::<int, AgeErrorModel>(days as int),
            Err(error) => days_of(number@, unit@) == Err::<int, AgeErrorModel>(error@),
        },
{
    let n: i64 = match parse_i64(number) {
        Ok(n) => n,
        Err(reason) => return Err(AgeError::InvalidNumber { number: number.to_owned(), reason }),
    };
    if n < 0 {
        return Err(AgeError::Negative(n));
    }
    if same_text(&unit, "day") || same_text(&unit, "days") || same_text(&unit, "d") {
        Ok(n)
    } else if same_text(&unit, "week") || same_text(&unit, "weeks") || same_text(&unit, "w") {
        if n <= i64::MAX / 7 {
            Ok(n * 7)
        } else {
            Err(AgeError::TooManyWeeks(n))
        }
    } else {
        Err(AgeError::UnsupportedUnit(unit))
    }
}

/// Reads a minimum age: `"14 days"`, `"2 weeks"`, or a bare number of days.
pub fn parse_min_publish_age(raw: &str) -> (result: Result<i64, AgeError>)
    ensures
        match result {
            Ok(days) => days >= 0 && read_age(raw@) == Ok::<int, AgeErrorModel>(days as int),
            Err(error) => read_age(raw@) == Err::<int, AgeErrorModel>(error@),
        },
{
    let s: &str = trim(raw);
    if s.is_empty() {
        return Err(AgeError::Empty);
    }
    if let Ok(n) = parse_i64(s) {
        if n < 0 {
            return Err(AgeError::Negative(n));
        }
        return Ok(n);
    }
    let split: usize = match find_white_space(s) {
        Some(k) => k,
        None => return Err(AgeError::MissingUnit(raw.to_owned())),
    };
    let number: &str = s.substring_char(0, split);
    let len: usize = s.unicode_len();
    let unit: String = trim(s.substring_char(split + 1, len)).to_lowercase();
    proof {
        assert(s@.subrange(0, split as int) == s@.take(split as int));
        assert(s@.subrange(split + 1, len as int) == s@.skip(split + 1));
    }
    read_days(number, unit)
}

impl AgeErrorModel {
    /// What is wrong with the text.
    pub open spec fn message(self) -> Seq<char> {
        match self {
            AgeErrorModel::Empty => "empty min-publish-age value"@,
            AgeErrorModel::Negative(n) => "min-publish-age must be non-negative, got "@
                + text::decimal(n),
            AgeErrorModel::MissingUnit(raw) => "expected '<N> <unit>' (e.g. '14 days'), got "@
                + text::debug_form(raw),
            AgeErrorModel::InvalidNumber { number, .. } => "invalid number "@ + text::debug_form(
                number,
            ),
            AgeErrorModel::UnsupportedUnit(unit) => "unsupported unit "@ + text::debug_form(unit)
                + " in min-publish-age; expected day(s) or week(s)"@,
            AgeErrorModel::TooManyWeeks(n) => "min-publish-age is too large, got "@
                + text::decimal(n) + " weeks"@,
        }
    }

    /// What is wrong with the text, and why the number in it was refused.
    pub open spec fn full_message(self) -> Seq<char> {
        match self {
            AgeErrorModel::InvalidNumber { reason, .. } => self.message() + ": "@ + reason,
            _ => self.message(),
        }
    }
}

impl AgeError {
    /// Says what is wrong with the text.
    pub fn message(&self) -> (message: String)
        ensures
            message@ == self@.message(),
    {
        match self {
            AgeError::Empty => "empty min-publish-age value".to_owned(),
            AgeError::Negative(n) => {
                let mut out: String = "min-publish-age must be non-negative, got ".to_owned();
                out.append(i64_text(*n).as_str());
                out
            },
            AgeError::MissingUnit(raw) => {
                let mut out: String = "expected '<N> <unit>' (e.g. '14 days'), got ".to_owned();
                out.append(debug_text(raw.as_str()).as_str());
                out
            },
            AgeError::InvalidNumber { number, .. } => {
                let mut out: String = "invalid number ".to_owned();
                out.append(debug_text(number.as_str()).as_str());
                out
            },
            AgeError::UnsupportedUnit(unit) => {
                let mut out: String = "unsupported unit ".to_owned();
                out.append(debug_text(unit.as_str()).as_str());
                out.append(" in min-publish-age; expected day(s) or week(s)");
                out
            },
            AgeError::TooManyWeeks(n) => {
                let mut out: String = "min-publish-age is too large, got ".to_owned();
                out.append(i64_text(*n).as_str());
                out.append(" weeks");
                out
            },
        }
    }

    /// Says what is wrong with the text, and why the number in it was refused.
    pub fn full_message(&self) -> (message: String)
        ensures
            message@ == self@.full_message(),
    {
        let mut out: String = self.message();
        if let AgeError::InvalidNumber { reason, .. } = self {
            out.append(": ");
            out.append(reason.as_str());
        }
        out
    }
}

/// An age that is read is never negative, and an `i64` holds it.
pub proof fn read_age_is_never_negative(raw: Seq<char>)
    ensures
        read_age(raw) matches Ok(days) ==> 0 <= days <= i64::MAX,
{
}

/// The age that a text stands for, if it does.
pub open spec fn age_of_text(raw: Seq<char>) -> Option<int> {
    match read_age(raw) {
        Ok(days) => Some(days),
        Err(_) => None,
    }
}

/// White space around an age does not matter, but that an error for a missing unit quotes the text
/// as it came.
pub proof fn white_space_around_an_age_is_ignored(
    before: Seq<char>,
    raw: Seq<char>,
    after: Seq<char>,
)
    requires
        text::is_blank(before),
        text::is_blank(after),
    ensures
        read_age(before + raw + after) == match read_age(raw) {
            Err(AgeErrorModel::MissingUnit(_)) => Err(
                AgeErrorModel::MissingUnit(before + raw + after),
            ),
            other => other,
        },
        age_of_text(before + raw + after) == age_of_text(raw),
{
    text::lemma_trimmed_between_blanks(before, raw, after);
}

proof fn lemma_small_letters(raw: Seq<char>)
    ensures
        age_of_text(text::ascii_lowered(raw)) == age_of_text(raw),
{
    let s = text::trimmed(raw);
    let small = text::ascii_lowered(s);
    let split = rows::first_where(s, |c: char| text::is_white_space(c));
    text::lemma_trimmed_lowered(raw);
    text::lemma_white_space_lowered(s);
    text::lemma_integer_lowered(s);
    if split < s.len() {
        let number = s.take(split);
        let rest = s.skip(split + 1);
        assert(small.take(split) == text::ascii_lowered(number));
        assert(small.skip(split + 1) == text::ascii_lowered(rest));
        text::lemma_integer_lowered(number);
        text::lemma_trimmed_lowered(rest);
        text::lemma_lowered_again(text::trimmed(rest));
    }
}

/// Capitals in an age do not matter: with its ASCII letters all small, or all capitals, a text
/// stands for the same age.
pub proof fn capitals_in_an_age_do_not_matter(raw: Seq<char>)
    ensures
        age_of_text(text::ascii_lowered(raw)) == age_of_text(raw),
        age_of_text(text::ascii_uppered(raw)) == age_of_text(raw),
{
    lemma_small_letters(raw);
    lemma_small_letters(text::ascii_uppered(raw));
    text::lemma_lowered_again(raw);
}

/// Nothing but white space is no age.
pub proof fn a_blank_text_is_no_age(raw: Seq<char>)
    ensures
        read_age(raw) == Err::<int, AgeErrorModel>(AgeErrorModel::Empty) <==> forall|i: int|
            0 <= i < raw.len() ==> text::is_white_space(#[trigger] raw[i]),
{
    text::exactly_the_outer_white_space_is_trimmed(raw);
    if forall|i: int| 0 <= i < raw.len() ==> text::is_white_space(#[trigger] raw[i]) {
        let none = Seq::<char>::empty();
        text::lemma_trimmed_between_blanks(raw, none, none);
        assert(raw + none + none == raw);
        text::lemma_trimmed_already(none);
    }
    if text::trimmed(raw).len() == 0 {
        let (a, b) = choose|a: int, b: int|
            {
                &&& 0 <= a <= b <= raw.len()
                &&& text::trimmed(raw) == #[trigger] raw.subrange(a, b)
                &&& forall|i: int| 0 <= i < a ==> text::is_white_space(#[trigger] raw[i])
                &&& forall|i: int| b <= i < raw.len() ==> text::is_white_space(#[trigger] raw[i])
            };
        assert(a == b);
    }
}

/// A whole number by itself is a number of days, if it is not negative.
pub proof fn a_bare_number_is_a_number_of_days(
    before: Seq<char>,
    number: Seq<char>,
    after: Seq<char>,
    n: int,
)
    requires
        text::is_blank(before),
        text::is_blank(after),
        text::integer_value(number) == Some(n),
        i64::MIN <= n <= i64::MAX,
    ensures
        n >= 0 ==> read_age(before + number + after) == Ok::<int, AgeErrorModel>(n),
        n < 0 ==> read_age(before + number + after) == Err::<int, AgeErrorModel>(
            AgeErrorModel::Negative(n),
        ),
{
    let body = text::unsigned_part(number);
    assert(text::is_digit(body[0]));
    assert(text::is_digit(body[body.len() - 1]));
    assert(number[number.len() - 1] == body[body.len() - 1]);
    assert(!text::is_white_space(number[0]));
    text::lemma_trimmed_already(number);
    text::lemma_trimmed_between_blanks(before, number, after);
}

/// A word by itself that is no whole number lacks a unit.
pub proof fn a_single_word_lacks_a_unit(before: Seq<char>, word: Seq<char>, after: Seq<char>)
    requires
        text::is_blank(before),
        text::is_blank(after),
        word.len() > 0,
        forall|i: int| 0 <= i < word.len() ==> !text::is_white_space(#[trigger] word[i]),
        !(text::integer_value(word) matches Some(n) && i64::MIN <= n <= i64::MAX),
    ensures
        read_age(before + word + after) == Err::<int, AgeErrorModel>(
            AgeErrorModel::MissingUnit(before + word + after),
        ),
{
    let white = |c: char| text::is_white_space(c);
    text::lemma_trimmed_already(word);
    text::lemma_trimmed_between_blanks(before, word, after);
    assert forall|i: int| 0 <= i < word.len() implies !white(#[trigger] word[i]) by {}
    rows::lemma_first_where(word, white, word.len() as int);
}

/// A number and a unit with white space between them are a number of days, or of seven times as
/// many for weeks. What is no number, a negative number, another unit, and more weeks than an
/// `i64` has days for are refused, in this order.
pub proof fn a_number_and_a_unit_are_a_number_of_days(
    before: Seq<char>,
    number: Seq<char>,
    gap: Seq<char>,
    unit: Seq<char>,
    after: Seq<char>,
)
    requires
        text::is_blank(before),
        text::is_blank(gap),
        text::is_blank(after),
        number.len() > 0,
        gap.len() > 0,
        unit.len() > 0,
        forall|i: int| 0 <= i < number.len() ==> !text::is_white_space(#[trigger] number[i]),
        !text::is_white_space(unit[0]),
        !text::is_white_space(unit[unit.len() - 1]),
    ensures
        ({
            let age = read_age(before + number + gap + unit + after);
            let small = text::lowered(unit);
            let days = small == "day"@ || small == "days"@ || small == "d"@;
            let weeks = small == "week"@ || small == "weeks"@ || small == "w"@;
            let value = text::integer_value(number);
            let fits = value is Some && i64::MIN <= value->0 <= i64::MAX;
            &&& !fits ==> age == Err::<int, AgeErrorModel>(
                AgeErrorModel::InvalidNumber { number, reason: text::integer_error(number) },
            )
            &&& fits && value->0 < 0 ==> age == Err::<int, AgeErrorModel>(
                AgeErrorModel::Negative(value->0),
            )
            &&& fits && value->0 >= 0 && days ==> age == Ok::<int, AgeErrorModel>(value->0)
            &&& fits && value->0 >= 0 && weeks && 7 * value->0 <= i64::MAX ==> age == Ok::<
                int,
                AgeErrorModel,
            >(7 * value->0)
            &&& fits && value->0 >= 0 && weeks && 7 * value->0 > i64::MAX ==> age == Err::<
                int,
                AgeErrorModel,
            >(AgeErrorModel::TooManyWeeks(value->0))
            &&& fits && value->0 >= 0 && !days && !weeks ==> age == Err::<int, AgeErrorModel>(
                AgeErrorModel::UnsupportedUnit(small),
            )
        }),
{
    let white = |c: char| text::is_white_space(c);
    let s = number + gap + unit;
    let split = number.len() as int;
    assert(before + number + gap + unit + after == before + s + after);
    assert(s[0] == number[0]);
    assert(s[s.len() - 1] == unit[unit.len() - 1]);
    text::lemma_trimmed_already(s);
    text::lemma_trimmed_between_blanks(before, s, after);
    assert forall|j: int| 0 <= j < split implies !white(#[trigger] s[j]) by {
        assert(s[j] == number[j]);
    }
    assert(s[split] == gap[0]);
    rows::lemma_first_where(s, white, split);
    text::lemma_no_number_with_white_space(s, split);
    assert(s.take(split) == number);
    let rest = s.skip(split + 1);
    let blank = gap.skip(1);
    let none = Seq::<char>::empty();
    assert forall|i: int| 0 <= i < blank.len() implies text::is_white_space(#[trigger] blank[i]) by {
        assert(blank[i] == gap[i + 1]);
    }
    assert(rest == blank + unit + none);
    text::lemma_trimmed_between_blanks(blank, unit, none);
    text::lemma_trimmed_already(unit);
    reveal_strlit("day");
    reveal_strlit("days");
    reveal_strlit("d");
    reveal_strlit("week");
    reveal_strlit("weeks");
    reveal_strlit("w");
    assert("day"@[0] == 'd' && "days"@[0] == 'd' && "d"@[0] == 'd');
    assert("week"@[0] == 'w' && "weeks"@[0] == 'w' && "w"@[0] == 'w');
}

/// What is said of a text that is no age.
pub proof fn a_refused_age_is_told(n: int, word: Seq<char>, reason: Seq<char>)
    ensures
        AgeErrorModel::Empty.full_message() == "empty min-publish-age value"@,
        AgeErrorModel::Negative(n).full_message() == "min-publish-age must be non-negative, got "@
            + text::decimal(n),
        AgeErrorModel::MissingUnit(word).full_message()
            == "expected '<N> <unit>' (e.g. '14 days'), got "@ + text::debug_form(word),
        (AgeErrorModel::InvalidNumber { number: word, reason }).message() == "invalid number "@
            + text::debug_form(word),
        (AgeErrorModel::InvalidNumber { number: word, reason }).full_message()
            == "invalid number "@ + text::debug_form(word) + ": "@ + reason,
        AgeErrorModel::UnsupportedUnit(word).full_message() == "unsupported unit "@
            + text::debug_form(word) + " in min-publish-age; expected day(s) or week(s)"@,
        AgeErrorModel::TooManyWeeks(n).full_message() == "min-publish-age is too large, got "@
            + text::decimal(n) + " weeks"@,
{
}

/// Errors on ages are seen whole.
pub proof fn age_errors_are_seen_whole(error: AgeError)
    ensures
        error is Empty <==> error@ is Empty,
        error matches AgeError::Negative(n) ==> error@ == AgeErrorModel::Negative(n as int),
        error matches AgeError::MissingUnit(raw) ==> error@ == AgeErrorModel::MissingUnit(raw@),
        error matches AgeError::InvalidNumber { number, reason } ==> error@
            == (AgeErrorModel::InvalidNumber { number: number@, reason: reason@ }),
        error matches AgeError::UnsupportedUnit(unit) ==> error@ == AgeErrorModel::UnsupportedUnit(
            unit@,
        ),
        error matches AgeError::TooManyWeeks(n) ==> error@ == AgeErrorModel::TooManyWeeks(n as int),
{
}

} // verus!
