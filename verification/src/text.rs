//! Characters, lines and numbers as text.

use crate::rows;
use vstd::prelude::*;
use vstd::string::*;

verus! {

/// The characters with Unicode's `White_Space` property.
pub open spec fn is_white_space(c: char) -> bool {
    ||| '\u{9}' <= c <= '\u{d}'
    ||| c == ' '
    ||| c == '\u{85}'
    ||| c == '\u{a0}'
    ||| c == '\u{1680}'
    ||| '\u{2000}' <= c <= '\u{200a}'
    ||| c == '\u{2028}'
    ||| c == '\u{2029}'
    ||| c == '\u{202f}'
    ||| c == '\u{205f}'
    ||| c == '\u{3000}'
}

/// `s` without its leading white space.
pub open spec fn trim_start(s: Seq<char>) -> Seq<char>
    decreases s.len(),
{
    if s.len() > 0 && is_white_space(s[0]) {
        trim_start(s.skip(1))
    } else {
        s
    }
}

/// `s` without its trailing white space.
pub open spec fn trim_end(s: Seq<char>) -> Seq<char>
    decreases s.len(),
{
    if s.len() > 0 && is_white_space(s.last()) {
        trim_end(s.drop_last())
    } else {
        s
    }
}

/// `s` without the white space at its two ends.
pub open spec fn trimmed(s: Seq<char>) -> Seq<char> {
    trim_end(trim_start(s))
}

/// The characters of each of some texts.
pub open spec fn texts_view(texts: Seq<String>) -> Seq<Seq<char>> {
    texts.map_values(|t: String| t@)
}

/// The characters of a text that may be missing.
pub open spec fn option_view(text: Option<String>) -> Option<Seq<char>> {
    match text {
        Some(t) => Some(t@),
        None => None,
    }
}

/// Tests whether two texts have the same characters.
pub fn same_text(a: &String, b: &str) -> (r: bool)
    ensures
        r == (a@ == b@),
{
    *a == b.to_owned()
}

/// Tests whether some texts have `wanted` among them.
pub fn contains_text(texts: &Vec<String>, wanted: &String) -> (r: bool)
    ensures
        r == texts_view(texts@).contains(wanted@),
{
    let ghost all = texts_view(texts@);
    let mut i: usize = 0;
    while i < texts.len()
        invariant
            i <= texts.len(),
            all == texts_view(texts@),
            forall|j: int| 0 <= j < i ==> #[trigger] all[j] != wanted@,
        decreases texts.len() - i,
    {
        assert(all[i as int] == texts@[i as int]@);
        if texts[i] == *wanted {
            return true;
        }
        i += 1;
    }
    false
}

/// Tests for a character with the `White_Space` property.
pub fn white_space(c: char) -> (r: bool)
    ensures
        r == is_white_space(c),
{
    ('\u{9}' <= c && c <= '\u{d}') || c == ' ' || c == '\u{85}' || c == '\u{a0}' || c == '\u{1680}'
        || ('\u{2000}' <= c && c <= '\u{200a}') || c == '\u{2028}' || c == '\u{2029}' || c
        == '\u{202f}' || c == '\u{205f}' || c == '\u{3000}'
}

/// The characters of `s`, one by one.
pub fn chars_of(s: &str) -> (chars: Vec<char>)
    ensures
        chars@ == s@,
{
    let mut chars: Vec<char> = Vec::new();
    for c in it: s.chars()
        invariant
            it.seq() == s@,
            chars@ == s@.take(it.index()),
    {
        chars.push(c);
    }
    chars
}

proof fn lemma_trim_start(s: Seq<char>, k: int)
    requires
        0 <= k <= s.len(),
        forall|j: int| 0 <= j < k ==> is_white_space(#[trigger] s[j]),
        k < s.len() ==> !is_white_space(s[k]),
    ensures
        trim_start(s) == s.skip(k),
    decreases k,
{
    if k == 0 {
        assert(s.skip(0) == s);
    } else {
        assert forall|j: int| 0 <= j < k - 1 implies is_white_space(#[trigger] s.skip(1)[j]) by {
            assert(s.skip(1)[j] == s[j + 1]);
        }
        assert(is_white_space(s[0]));
        lemma_trim_start(s.skip(1), k - 1);
        assert(s.skip(1).skip(k - 1) == s.skip(k));
    }
}

proof fn lemma_trim_end(s: Seq<char>, k: int)
    requires
        0 <= k <= s.len(),
        forall|j: int| k <= j < s.len() ==> is_white_space(#[trigger] s[j]),
        0 < k ==> !is_white_space(s[k - 1]),
    ensures
        trim_end(s) == s.take(k),
    decreases s.len() - k,
{
    if k == s.len() {
        assert(s.take(k) == s);
    } else {
        assert(is_white_space(s[s.len() - 1]));
        lemma_trim_end(s.drop_last(), k);
        assert(s.drop_last().take(k) == s.take(k));
    }
}

/// Takes the white space off both ends of `s`.
pub fn trim(s: &str) -> (r: &str)
    ensures
        r@ == trimmed(s@),
{
    let chars: Vec<char> = chars_of(s);
    let mut from: usize = 0;
    while from < chars.len() && white_space(chars[from])
        invariant
            from <= chars.len(),
            forall|j: int| 0 <= j < from ==> is_white_space(#[trigger] chars@[j]),
        decreases chars.len() - from,
    {
        from += 1;
    }
    let mut to: usize = chars.len();
    while to > from && white_space(chars[to - 1])
        invariant
            from <= to <= chars.len(),
            forall|j: int| to <= j < chars.len() ==> is_white_space(#[trigger] chars@[j]),
        decreases to,
    {
        to -= 1;
    }
    proof {
        lemma_trim_start(s@, from as int);
        let rest = s@.skip(from as int);
        lemma_trim_end(rest, to - from);
        assert(rest.take(to - from) == s@.subrange(from as int, to as int));
    }
    s.substring_char(from, to)
}

/// All the characters are white space.
pub open spec fn is_blank(s: Seq<char>) -> bool {
    forall|i: int| 0 <= i < s.len() ==> is_white_space(#[trigger] s[i])
}

proof fn lemma_trim_start_blank(blank: Seq<char>, s: Seq<char>)
    requires
        is_blank(blank),
    ensures
        trim_start(blank + s) == trim_start(s),
    decreases blank.len(),
{
    if blank.len() == 0 {
        assert(blank + s == s);
    } else {
        assert(is_white_space(blank[0]));
        assert forall|i: int| 0 <= i < blank.len() - 1 implies is_white_space(
            #[trigger] blank.skip(1)[i],
        ) by {
            assert(blank.skip(1)[i] == blank[i + 1]);
        }
        assert((blank + s).skip(1) == blank.skip(1) + s);
        lemma_trim_start_blank(blank.skip(1), s);
    }
}

proof fn lemma_trim_end_blank(s: Seq<char>, blank: Seq<char>)
    requires
        is_blank(blank),
    ensures
        trim_end(s + blank) == trim_end(s),
    decreases blank.len(),
{
    if blank.len() == 0 {
        assert(s + blank == s);
    } else {
        assert(is_white_space(blank[blank.len() - 1]));
        assert((s + blank).drop_last() == s + blank.drop_last());
        lemma_trim_end_blank(s, blank.drop_last());
    }
}

proof fn lemma_trim_start_before_blank(s: Seq<char>, blank: Seq<char>)
    requires
        is_blank(blank),
    ensures
        trim_start(s).len() > 0 ==> trim_start(s + blank) == trim_start(s) + blank,
        trim_start(s).len() == 0 ==> trim_start(s + blank).len() == 0,
    decreases s.len(),
{
    if s.len() == 0 {
        assert(s + blank == blank + Seq::<char>::empty());
        lemma_trim_start_blank(blank, Seq::empty());
    } else if is_white_space(s[0]) {
        assert((s + blank).skip(1) == s.skip(1) + blank);
        lemma_trim_start_before_blank(s.skip(1), blank);
    }
}

/// White space put around a text is trimmed off again.
pub proof fn lemma_trimmed_between_blanks(before: Seq<char>, s: Seq<char>, after: Seq<char>)
    requires
        is_blank(before),
        is_blank(after),
    ensures
        trimmed(before + s + after) == trimmed(s),
{
    assert(before + s + after == before + (s + after));
    lemma_trim_start_blank(before, s + after);
    lemma_trim_start_before_blank(s, after);
    if trim_start(s).len() > 0 {
        lemma_trim_end_blank(trim_start(s), after);
    } else {
        assert(trim_start(s) == trim_start(s + after));
    }
}

/// Tests whether the first character of `s` that is no white space is `=`.
pub fn starts_with_equals(s: &str) -> (r: bool)
    ensures
        r == (trim_start(s@).len() > 0 && trim_start(s@)[0] == '='),
{
    let chars: Vec<char> = chars_of(s);
    let mut from: usize = 0;
    while from < chars.len() && white_space(chars[from])
        invariant
            from <= chars.len(),
            forall|j: int| 0 <= j < from ==> is_white_space(#[trigger] chars@[j]),
        decreases chars.len() - from,
    {
        from += 1;
    }
    proof {
        lemma_trim_start(s@, from as int);
    }
    from < chars.len() && chars[from] == '='
}

/// Finds the first white space of `s`.
pub fn find_white_space(s: &str) -> (r: Option<usize>)
    ensures
        match r {
            Some(k) => k < s@.len() && k == rows::first_where(s@, |c: char| is_white_space(c)),
            None => rows::first_where(s@, |c: char| is_white_space(c)) == s@.len(),
        },
{
    let chars: Vec<char> = chars_of(s);
    let ghost wanted = |c: char| is_white_space(c);
    let mut i: usize = 0;
    while i < chars.len()
        invariant
            i <= chars.len(),
            chars@ == s@,
            wanted == (|c: char| is_white_space(c)),
            forall|j: int| 0 <= j < i ==> !wanted(#[trigger] s@[j]),
        decreases chars.len() - i,
    {
        if white_space(chars[i]) {
            proof {
                rows::lemma_first_where(s@, wanted, i as int);
            }
            return Some(i);
        }
        i += 1;
    }
    proof {
        rows::lemma_first_where(s@, wanted, i as int);
    }
    None
}

/// Finds the first `c` of `s`.
pub fn find_char(s: &str, c: char) -> (r: Option<usize>)
    ensures
        match r {
            Some(k) => k < s@.len() && k == rows::first_where(s@, |d: char| d == c),
            None => rows::first_where(s@, |d: char| d == c) == s@.len(),
        },
{
    let chars: Vec<char> = chars_of(s);
    let ghost wanted = |d: char| d == c;
    let mut i: usize = 0;
    while i < chars.len()
        invariant
            i <= chars.len(),
            chars@ == s@,
            wanted == (|d: char| d == c),
            forall|j: int| 0 <= j < i ==> !wanted(#[trigger] s@[j]),
        decreases chars.len() - i,
    {
        if chars[i] == c {
            proof {
                rows::lemma_first_where(s@, wanted, i as int);
            }
            return Some(i);
        }
        i += 1;
    }
    proof {
        rows::lemma_first_where(s@, wanted, i as int);
    }
    None
}

/// The order of texts by their characters, as in a dictionary.
pub open spec fn precedes(a: Seq<char>, b: Seq<char>) -> bool
    decreases a.len(),
{
    if b.len() == 0 {
        false
    } else if a.len() == 0 {
        true
    } else {
        a[0] < b[0] || (a[0] == b[0] && precedes(a.skip(1), b.skip(1)))
    }
}

/// No text precedes itself.
pub proof fn precedes_is_irreflexive(a: Seq<char>)
    ensures
        !precedes(a, a),
    decreases a.len(),
{
    if a.len() > 0 {
        precedes_is_irreflexive(a.skip(1));
    }
}

/// What precedes a text precedes all that the text precedes.
pub proof fn precedes_is_transitive(a: Seq<char>, b: Seq<char>, c: Seq<char>)
    requires
        precedes(a, b),
        precedes(b, c),
    ensures
        precedes(a, c),
    decreases a.len(),
{
    if a.len() > 0 && a[0] == b[0] && b[0] == c[0] {
        precedes_is_transitive(a.skip(1), b.skip(1), c.skip(1));
    }
}

/// Of two different texts one precedes the other.
pub proof fn precedes_is_total(a: Seq<char>, b: Seq<char>)
    requires
        a != b,
    ensures
        precedes(a, b) || precedes(b, a),
    decreases a.len(),
{
    if a.len() == 0 && b.len() == 0 {
        assert(a == b);
    } else if a.len() > 0 && b.len() > 0 && a[0] == b[0] {
        if a.skip(1) == b.skip(1) {
            assert(a == seq![a[0]] + a.skip(1));
            assert(b == seq![b[0]] + b.skip(1));
        }
        precedes_is_total(a.skip(1), b.skip(1));
    }
}

/// Tests whether `a` comes before `b` in the order of texts.
pub fn comes_before(a: &str, b: &str) -> (r: bool)
    ensures
        r == precedes(a@, b@),
{
    let left: Vec<char> = chars_of(a);
    let right: Vec<char> = chars_of(b);
    let mut i: usize = 0;
    proof {
        assert(a@.skip(0) == a@);
        assert(b@.skip(0) == b@);
    }
    while i < left.len() && i < right.len() && left[i] == right[i]
        invariant
            i <= left.len(),
            i <= right.len(),
            left@ == a@,
            right@ == b@,
            precedes(a@, b@) == precedes(a@.skip(i as int), b@.skip(i as int)),
        decreases left.len() - i,
    {
        proof {
            assert(a@.skip(i as int).skip(1) == a@.skip(i + 1));
            assert(b@.skip(i as int).skip(1) == b@.skip(i + 1));
        }
        i += 1;
    }
    if i == right.len() {
        false
    } else if i == left.len() {
        true
    } else {
        left[i] < right[i]
    }
}

/// The character of a decimal digit.
pub open spec fn digit_char(d: int) -> char {
    (d + '0' as int) as char
}

/// The decimal digits of `n`, without leading zeros.
pub open spec fn digits(n: nat) -> Seq<char>
    decreases n,
{
    if n < 10 {
        seq![digit_char(n as int)]
    } else {
        digits(n / 10).push(digit_char((n % 10) as int))
    }
}

/// `n` in decimal, with a minus sign if it is negative.
pub open spec fn decimal(n: int) -> Seq<char> {
    if n < 0 {
        seq!['-'] + digits((-n) as nat)
    } else {
        digits(n as nat)
    }
}

fn digit_text(d: u128) -> (r: &'static str)
    requires
        d < 10,
    ensures
        r@ == seq![digit_char(d as int)],
{
    proof {
        reveal_strlit("0");
        reveal_strlit("1");
        reveal_strlit("2");
        reveal_strlit("3");
        reveal_strlit("4");
        reveal_strlit("5");
        reveal_strlit("6");
        reveal_strlit("7");
        reveal_strlit("8");
        reveal_strlit("9");
    }
    match d {
        0 => "0",
        1 => "1",
        2 => "2",
        3 => "3",
        4 => "4",
        5 => "5",
        6 => "6",
        7 => "7",
        8 => "8",
        _ => "9",
    }
}

fn append_digits(out: &mut String, n: u128)
    ensures
        final(out)@ == old(out)@ + digits(n as nat),
    decreases n,
{
    let ghost before = out@;
    if n >= 10 {
        append_digits(out, n / 10);
    }
    out.append(digit_text(n % 10));
    proof {
        if n >= 10 {
            assert(before + digits(n as nat / 10) + seq![digit_char((n % 10) as int)] == before
                + digits(n as nat));
        }
    }
}

/// Writes an unsigned number in decimal.
pub fn u128_text(n: u128) -> (r: String)
    ensures
        r@ == decimal(n as int),
{
    let mut out: String = String::new();
    append_digits(&mut out, n);
    proof {
        assert(Seq::<char>::empty() + digits(n as nat) == digits(n as nat));
    }
    out
}

/// Writes a count in decimal.
pub fn usize_text(n: usize) -> (r: String)
    ensures
        r@ == decimal(n as int),
{
    u128_text(n as u128)
}

/// Writes a signed number in decimal.
pub fn i64_text(n: i64) -> (r: String)
    ensures
        r@ == decimal(n as int),
{
    let mut out: String = String::new();
    if n < 0 {
        out.append("-");
        append_digits(&mut out, (-(n as i128)) as u128);
        proof {
            reveal_strlit("-");
            assert(Seq::<char>::empty() + "-"@ == seq!['-']);
        }
    } else {
        append_digits(&mut out, n as u128);
        proof {
            assert(Seq::<char>::empty() + digits(n as nat) == digits(n as nat));
        }
    }
    out
}

/// `s` filled up on its right with blanks to `width` characters.
pub open spec fn padded(s: Seq<char>, width: nat) -> Seq<char> {
    if s.len() >= width {
        s
    } else {
        s + Seq::new((width - s.len()) as nat, |i: int| ' ')
    }
}

/// Fills `s` up on its right with blanks to `width` characters.
pub fn pad(s: &str, width: usize) -> (r: String)
    ensures
        r@ == padded(s@, width as nat),
{
    let mut out: String = s.to_owned();
    let mut len: usize = s.unicode_len();
    proof {
        reveal_strlit(" ");
        assert(s@ + Seq::new(0, |i: int| ' ') == s@);
    }
    while len < width
        invariant
            s@.len() <= len,
            s@.len() >= width ==> len == s@.len(),
            s@.len() < width ==> len <= width,
            out@ == s@ + Seq::new((len - s@.len()) as nat, |i: int| ' '),
            " "@ == seq![' '],
        decreases width - len,
    {
        out.append(" ");
        len += 1;
        proof {
            assert(s@ + Seq::new((len - 1 - s@.len()) as nat, |i: int| ' ') + seq![' '] == s@
                + Seq::new((len - s@.len()) as nat, |i: int| ' '));
        }
    }
    out
}

/// `s` without the slashes at its end.
pub open spec fn without_end_slashes(s: Seq<char>) -> Seq<char>
    decreases s.len(),
{
    if s.len() > 0 && s.last() == '/' {
        without_end_slashes(s.drop_last())
    } else {
        s
    }
}

/// Takes the slashes off the end of `s`.
pub fn trim_end_slashes(s: &str) -> (r: &str)
    ensures
        r@ == without_end_slashes(s@),
{
    let chars: Vec<char> = chars_of(s);
    let mut to: usize = chars.len();
    proof {
        assert(s@.take(to as int) == s@);
    }
    while to > 0 && chars[to - 1] == '/'
        invariant
            to <= chars.len(),
            chars@ == s@,
            without_end_slashes(s@) == without_end_slashes(s@.take(to as int)),
        decreases to,
    {
        proof {
            assert(s@.take(to as int).drop_last() == s@.take(to - 1));
        }
        to -= 1;
    }
    proof {
        assert(s@.subrange(0, to as int) == s@.take(to as int));
    }
    s.substring_char(0, to)
}

/// The digits `0` to `9`.
pub open spec fn is_digit(c: char) -> bool {
    '0' <= c <= '9'
}

/// The number that a row of decimal digits writes.
pub open spec fn digits_value(s: Seq<char>) -> int
    decreases s.len(),
{
    if s.len() == 0 {
        0
    } else {
        10 * digits_value(s.drop_last()) + (s.last() as int - '0' as int)
    }
}

/// `s` is a row of decimal digits, at least one.
pub open spec fn is_number(s: Seq<char>) -> bool {
    s.len() > 0 && forall|i: int| 0 <= i < s.len() ==> is_digit(#[trigger] s[i])
}

/// `s` without its sign, if it has one.
pub open spec fn unsigned_part(s: Seq<char>) -> Seq<char> {
    if s.len() > 0 && (s[0] == '-' || s[0] == '+') {
        s.skip(1)
    } else {
        s
    }
}

/// The number that a text writes as an optional sign and at least one decimal digit.
pub open spec fn integer_value(s: Seq<char>) -> Option<int> {
    let body = unsigned_part(s);
    if !is_number(body) {
        None
    } else if s[0] == '-' {
        Some(-digits_value(body))
    } else {
        Some(digits_value(body))
    }
}

/// What the error of `str::parse::<i64>` says of a text that it refuses.
pub uninterp spec fn integer_error(s: Seq<char>) -> Seq<char>;

/// Calls `str::parse::<i64>`. It accepts an optional `+` or `-` and then only decimal
/// digits, at least one, and gives the number that they write, if an `i64` holds it. It
/// refuses everything else; the text of its error is a function of the text alone.
#[verifier::external_body]
pub(crate) fn parse_i64(s: &str) -> (result: Result<i64, String>)
    ensures
        match result {
            Ok(n) => integer_value(s@) == Some(n as int),
            Err(message) => message@ == integer_error(s@) && !(integer_value(s@) matches Some(n)
                && i64::MIN <= n <= i64::MAX),
        },
{
    s.parse::<i64>().map_err(|e| e.to_string())
}

/// All the characters are ASCII.
pub open spec fn is_ascii(s: Seq<char>) -> bool {
    forall|i: int| 0 <= i < s.len() ==> ((#[trigger] s[i]) as int) < 128
}

/// `c`, or the small letter where it is one of `A` to `Z`.
pub open spec fn ascii_lower(c: char) -> char {
    if 'A' <= c <= 'Z' {
        (c as int - 'A' as int + 'a' as int) as char
    } else {
        c
    }
}

/// `s` with small letters in place of `A` to `Z`.
pub open spec fn ascii_lowered(s: Seq<char>) -> Seq<char> {
    s.map_values(|c: char| ascii_lower(c))
}

/// The small-letter form that `str::to_lowercase` gives a text.
pub uninterp spec fn lowercase(s: Seq<char>) -> Seq<char>;

/// `str::to_lowercase` maps every character by Unicode's lowercase mapping. Of a text
/// that is ASCII throughout it changes only the letters `A` to `Z`, each to its small
/// letter. Whether those letters come as capitals or small makes no difference to the
/// result, in any text: a letter of either case has the same small letter, and counts the
/// same where the place in a word matters, as it does for a Greek sigma.
pub assume_specification[ str::to_lowercase ](s: &str) -> (lower: String)
    ensures
        lower@ == lowercase(s@),
        lower@ == lowercase(ascii_lowered(s@)),
        is_ascii(s@) ==> lower@ == ascii_lowered(s@),
;

/// A text in small letters.
pub open spec fn lowered(s: Seq<char>) -> Seq<char> {
    if is_ascii(s) {
        ascii_lowered(s)
    } else {
        lowercase(ascii_lowered(s))
    }
}

/// `c`, or the capital where it is one of `a` to `z`.
pub open spec fn ascii_upper(c: char) -> char {
    if 'a' <= c <= 'z' {
        (c as int - 'a' as int + 'A' as int) as char
    } else {
        c
    }
}

/// `s` with capitals in place of `a` to `z`.
pub open spec fn ascii_uppered(s: Seq<char>) -> Seq<char> {
    s.map_values(|c: char| ascii_upper(c))
}

/// A text comes to the same in small letters, whatever the case of its ASCII letters.
pub proof fn lemma_lowered_again(s: Seq<char>)
    ensures
        ascii_lowered(ascii_lowered(s)) == ascii_lowered(s),
        ascii_lowered(ascii_uppered(s)) == ascii_lowered(s),
        lowered(ascii_lowered(s)) == lowered(s),
{
    let small = ascii_lowered(s);
    assert(ascii_lowered(small) == small);
    assert(ascii_lowered(ascii_uppered(s)) == small);
    if is_ascii(s) {
        assert(is_ascii(small));
    } else {
        let i = choose|i: int| 0 <= i < s.len() && ((#[trigger] s[i]) as int) >= 128;
        assert((small[i] as int) >= 128);
    }
}

proof fn lemma_trim_start_lowered(s: Seq<char>)
    ensures
        trim_start(ascii_lowered(s)) == ascii_lowered(trim_start(s)),
    decreases s.len(),
{
    if s.len() > 0 && is_white_space(s[0]) {
        lemma_trim_start_lowered(s.skip(1));
        assert(ascii_lowered(s).skip(1) == ascii_lowered(s.skip(1)));
    }
}

proof fn lemma_trim_end_lowered(s: Seq<char>)
    ensures
        trim_end(ascii_lowered(s)) == ascii_lowered(trim_end(s)),
    decreases s.len(),
{
    if s.len() > 0 && is_white_space(s.last()) {
        lemma_trim_end_lowered(s.drop_last());
        assert(ascii_lowered(s).drop_last() == ascii_lowered(s.drop_last()));
    }
}

/// Trimming and small letters do not get in each other's way.
pub proof fn lemma_trimmed_lowered(s: Seq<char>)
    ensures
        trimmed(ascii_lowered(s)) == ascii_lowered(trimmed(s)),
{
    lemma_trim_start_lowered(s);
    lemma_trim_end_lowered(trim_start(s));
}

/// Small letters leave white space where it is.
pub proof fn lemma_white_space_lowered(s: Seq<char>)
    ensures
        rows::first_where(ascii_lowered(s), |c: char| is_white_space(c)) == rows::first_where(
            s,
            |c: char| is_white_space(c),
        ),
        0 <= rows::first_where(s, |c: char| is_white_space(c)) <= s.len(),
    decreases s.len(),
{
    if s.len() > 0 && !is_white_space(s[0]) {
        lemma_white_space_lowered(s.skip(1));
        assert(ascii_lowered(s).skip(1) == ascii_lowered(s.skip(1)));
    }
}

/// Small letters leave a number as it is, and make no number of anything else.
pub proof fn lemma_integer_lowered(s: Seq<char>)
    ensures
        integer_value(ascii_lowered(s)) == integer_value(s),
{
    let body = unsigned_part(s);
    let small = unsigned_part(ascii_lowered(s));
    assert(small == ascii_lowered(body));
    if is_number(body) {
        assert(small == body);
    } else if body.len() > 0 {
        let i = choose|i: int| 0 <= i < body.len() && !is_digit(#[trigger] body[i]);
        assert(!is_digit(small[i]));
    }
}

/// The quoted and escaped form in which the `Debug` format writes a text.
pub uninterp spec fn debug_form(s: Seq<char>) -> Seq<char>;

/// Formats a text with `{:?}`, that is by `<str as Debug>::fmt`, whose output is a
/// function of the text alone.
#[verifier::external_body]
pub(crate) fn debug_text(s: &str) -> (quoted: String)
    ensures
        quoted@ == debug_form(s@),
{
    format!("{:?}", s)
}

/// White space is what has Unicode's `White_Space` property, by number.
pub proof fn white_space_is_what_unicode_lists(c: char)
    ensures
        is_white_space(c) <==> {
            let n = c as int;
            ||| n == 9 || n == 10 || n == 11 || n == 12 || n == 13
            ||| n == 32 || n == 133 || n == 160 || n == 5760
            ||| 8192 <= n && n <= 8202
            ||| n == 8232 || n == 8233 || n == 8239 || n == 8287 || n == 12288
        },
{
}

proof fn lemma_trim_start_split(s: Seq<char>) -> (k: int)
    ensures
        0 <= k <= s.len(),
        trim_start(s) == s.skip(k),
        forall|i: int| 0 <= i < k ==> is_white_space(#[trigger] s[i]),
        k < s.len() ==> !is_white_space(s[k]),
    decreases s.len(),
{
    if s.len() > 0 && is_white_space(s[0]) {
        let rest = s.skip(1);
        let k = lemma_trim_start_split(rest);
        assert(rest.skip(k) == s.skip(k + 1));
        assert forall|i: int| 0 <= i < k + 1 implies is_white_space(#[trigger] s[i]) by {
            if i > 0 {
                assert(rest[i - 1] == s[i]);
            }
        }
        k + 1
    } else {
        assert(s.skip(0) == s);
        0
    }
}

proof fn lemma_trim_end_split(s: Seq<char>) -> (k: int)
    ensures
        0 <= k <= s.len(),
        trim_end(s) == s.take(k),
        forall|i: int| k <= i < s.len() ==> is_white_space(#[trigger] s[i]),
        k > 0 ==> !is_white_space(s[k - 1]),
    decreases s.len(),
{
    if s.len() > 0 && is_white_space(s.last()) {
        let rest = s.drop_last();
        let k = lemma_trim_end_split(rest);
        assert(rest.take(k) == s.take(k));
        assert forall|i: int| k <= i < s.len() implies is_white_space(#[trigger] s[i]) by {
            if i < rest.len() {
                assert(rest[i] == s[i]);
            }
        }
        k
    } else {
        assert(s.take(s.len() as int) == s);
        s.len() as int
    }
}

/// Of a text whose first character that is no white space stands at `k`, what is before `k` is
/// taken off its start.
pub proof fn only_leading_white_space_is_taken_off(s: Seq<char>, k: int)
    requires
        0 <= k <= s.len(),
        forall|i: int| 0 <= i < k ==> is_white_space(#[trigger] s[i]),
        k < s.len() ==> !is_white_space(s[k]),
    ensures
        trim_start(s) == s.skip(k),
{
    lemma_trim_start(s, k);
}

/// A text is trimmed by exactly the white space at its two ends: put back, it gives the text, and
/// what is left neither begins nor ends with any.
pub proof fn exactly_the_outer_white_space_is_trimmed(s: Seq<char>)
    ensures
        exists|a: int, b: int|
            {
                &&& 0 <= a <= b <= s.len()
                &&& trimmed(s) == #[trigger] s.subrange(a, b)
                &&& forall|i: int| 0 <= i < a ==> is_white_space(#[trigger] s[i])
                &&& forall|i: int| b <= i < s.len() ==> is_white_space(#[trigger] s[i])
            },
        trimmed(s).len() > 0 ==> !is_white_space(trimmed(s)[0]) && !is_white_space(
            trimmed(s)[trimmed(s).len() - 1],
        ),
{
    let a = lemma_trim_start_split(s);
    let rest = s.skip(a);
    let k = lemma_trim_end_split(rest);
    assert(rest.take(k) == s.subrange(a, a + k));
    if k > 0 {
        assert(rest[0] == s[a]);
        assert(trimmed(s)[0] == rest[0]);
        assert(trimmed(s)[k - 1] == rest[k - 1]);
    }
    assert forall|i: int| a + k <= i < s.len() implies is_white_space(#[trigger] s[i]) by {
        assert(rest[i - a] == s[i]);
    }
}

/// One text comes before another exactly if it is a proper beginning of it, or has the smaller
/// character where the two first differ.
pub proof fn texts_are_ordered_as_in_a_dictionary(a: Seq<char>, b: Seq<char>)
    ensures
        precedes(a, b) <==> exists|k: int|
            {
                &&& 0 <= k <= a.len()
                &&& k < b.len()
                &&& #[trigger] a.take(k) == b.take(k)
                &&& k == a.len() || (a[k] as int) < (b[k] as int)
            },
    decreases a.len(),
{
    if precedes(a, b) {
        if a.len() == 0 || a[0] < b[0] {
            assert(a.take(0) == b.take(0));
        } else {
            let x = a.skip(1);
            let y = b.skip(1);
            texts_are_ordered_as_in_a_dictionary(x, y);
            let k = choose|k: int|
                {
                    &&& 0 <= k <= x.len()
                    &&& k < y.len()
                    &&& #[trigger] x.take(k) == y.take(k)
                    &&& k == x.len() || (x[k] as int) < (y[k] as int)
                };
            assert forall|i: int| 0 <= i < k + 1 implies a[i] == b[i] by {
                if i > 0 {
                    assert(x.take(k)[i - 1] == y.take(k)[i - 1]);
                }
            }
            assert(a.take(k + 1) == b.take(k + 1));
        }
    }
    if exists|k: int|
        {
            &&& 0 <= k <= a.len()
            &&& k < b.len()
            &&& #[trigger] a.take(k) == b.take(k)
            &&& k == a.len() || (a[k] as int) < (b[k] as int)
        } {
        let k = choose|k: int|
            {
                &&& 0 <= k <= a.len()
                &&& k < b.len()
                &&& #[trigger] a.take(k) == b.take(k)
                &&& k == a.len() || (a[k] as int) < (b[k] as int)
            };
        if k > 0 {
            let x = a.skip(1);
            let y = b.skip(1);
            assert(a.take(k)[0] == b.take(k)[0]);
            assert forall|i: int| 0 <= i < k - 1 implies x[i] == y[i] by {
                assert(a.take(k)[i + 1] == b.take(k)[i + 1]);
            }
            assert(x.take(k - 1) == y.take(k - 1));
            texts_are_ordered_as_in_a_dictionary(x, y);
        }
    }
}

proof fn lemma_digits_read_back(n: nat)
    ensures
        is_number(digits(n)),
        digits_value(digits(n)) == n,
        n > 0 ==> digits(n)[0] != '0',
        n == 0 ==> digits(n).len() == 1,
    decreases n,
{
    let s = digits(n);
    if n < 10 {
        assert(s.drop_last() == Seq::<char>::empty());
        assert(s.last() as int == n + '0' as int);
        reveal_with_fuel(digits_value, 2);
    } else {
        lemma_digits_read_back(n / 10);
        assert(s.drop_last() == digits(n / 10));
        assert forall|i: int| 0 <= i < s.len() implies is_digit(#[trigger] s[i]) by {
            if i < s.len() - 1 {
                assert(s[i] == digits(n / 10)[i]);
            }
        }
        assert(s[0] == digits(n / 10)[0]);
    }
}

/// A number written in decimal reads back as itself. It has a minus sign exactly if it is
/// negative, no plus sign, and no zeros before its first digit.
pub proof fn a_written_number_reads_back(n: int)
    ensures
        integer_value(decimal(n)) == Some(n),
        decimal(n).len() > 0,
        decimal(n)[0] == '-' <==> n < 0,
        decimal(n)[0] != '+',
        n > 0 ==> decimal(n)[0] != '0',
        n < 0 ==> decimal(n).len() > 1 && decimal(n)[1] != '0',
        n == 0 ==> decimal(n).len() == 1,
{
    let m: nat = if n < 0 {
        (-n) as nat
    } else {
        n as nat
    };
    lemma_digits_read_back(m);
    if n < 0 {
        assert(decimal(n).skip(1) == digits(m));
        assert(decimal(n)[1] == digits(m)[0]);
    } else {
        assert(is_digit(digits(m)[0]));
    }
}

/// A text that is filled up keeps its characters, and only blanks follow them, up to the width.
pub proof fn padding_only_adds_blanks(s: Seq<char>, width: nat)
    ensures
        padded(s, width).len() == if s.len() < width {
            width
        } else {
            s.len()
        },
        forall|i: int| 0 <= i < s.len() ==> #[trigger] padded(s, width)[i] == s[i],
        forall|i: int| s.len() <= i < width ==> #[trigger] padded(s, width)[i] == ' ',
{
}

/// Exactly the slashes at the end of a text are taken off: none is left there, and nothing else
/// goes.
pub proof fn exactly_the_slashes_at_the_end_go(s: Seq<char>)
    ensures
        ({
            let kept = without_end_slashes(s);
            &&& kept.len() <= s.len()
            &&& forall|i: int| 0 <= i < kept.len() ==> kept[i] == #[trigger] s[i]
            &&& forall|i: int| kept.len() <= i < s.len() ==> #[trigger] s[i] == '/'
            &&& kept.len() > 0 ==> kept[kept.len() - 1] != '/'
        }),
    decreases s.len(),
{
    if s.len() > 0 && s.last() == '/' {
        let rest = s.drop_last();
        exactly_the_slashes_at_the_end_go(rest);
        let kept = without_end_slashes(s);
        assert forall|i: int| 0 <= i < kept.len() implies kept[i] == #[trigger] s[i] by {
            assert(rest[i] == s[i]);
        }
        assert forall|i: int| kept.len() <= i < s.len() implies #[trigger] s[i] == '/' by {
            if i < rest.len() {
                assert(rest[i] == s[i]);
            }
        }
    }
}

/// Some texts are seen as they are: each in its place, character by character.
pub proof fn texts_are_seen_whole(texts: Seq<String>, text: Option<String>)
    ensures
        texts_view(texts).len() == texts.len(),
        forall|i: int| 0 <= i < texts.len() ==> #[trigger] texts_view(texts)[i] == texts[i]@,
        text is None ==> option_view(text) is None,
        text is Some ==> option_view(text) == Some(text->0@),
{
}

/// A text that neither begins nor ends with white space is trimmed already.
pub proof fn lemma_trimmed_already(s: Seq<char>)
    requires
        s.len() > 0 ==> !is_white_space(s[0]) && !is_white_space(s[s.len() - 1]),
    ensures
        trimmed(s) == s,
{
    lemma_trim_start(s, 0);
    assert(s.skip(0) == s);
    lemma_trim_end(s, s.len() as int);
    assert(s.take(s.len() as int) == s);
}

/// A text that has white space in it writes no number.
pub proof fn lemma_no_number_with_white_space(s: Seq<char>, k: int)
    requires
        0 < k < s.len(),
        is_white_space(s[k]),
    ensures
        integer_value(s) is None,
{
    let body = unsigned_part(s);
    if body == s {
        assert(!is_digit(body[k]));
    } else {
        assert(body[k - 1] == s[k]);
        assert(!is_digit(body[k - 1]));
    }
}

/// In small letters a text that is ASCII keeps its length, `A` to `Z` become `a` to `z`, and
/// nothing else changes. Of any other text it is what the standard library gives for it.
pub proof fn small_letters_are_the_standard_librarys(s: Seq<char>)
    ensures
        (forall|i: int| 0 <= i < s.len() ==> ((#[trigger] s[i]) as int) < 128) ==> {
            &&& lowered(s).len() == s.len()
            &&& forall|i: int|
                0 <= i < s.len() ==> ((#[trigger] lowered(s)[i]) as int) == if 65 <= (s[i] as int)
                    && (s[i] as int) <= 90 {
                    s[i] as int + 32
                } else {
                    s[i] as int
                }
        },
        (exists|i: int| 0 <= i < s.len() && ((#[trigger] s[i]) as int) >= 128) ==> lowered(s)
            == lowercase(ascii_lowered(s)),
{
}

} // verus!
