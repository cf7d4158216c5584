//! Which resource texts can be handed to `fluent`, and which of their
//! messages can be formatted.
//!
//! `fluent` can fail on four shapes of resource text in ways that no result
//! reports. Its parser fails on a `\u` or `\U` escape of a string literal
//! where a character beyond ASCII stands among the digits. Its formatter may
//! fail on a placeable that holds nothing but another placeable, on a select
//! expression whose selector is a string or number literal, and on a number
//! with twenty or more digits behind the point that is handed to a term as a
//! named argument.
//!
//! For the parser, a text with such an escape is first tried in a neutral
//! form, with the characters in question replaced: where that form parses,
//! none of the escapes stood in a string literal, and the text itself is safe.
//!
//! For the formatter, the tests here read the characters, not the grammar.
//! They pass over lines that begin with `#`, which are comments, and they look
//! for a long number only behind the first `{`. Within those bounds a text
//! that only looks like one of the three shapes is taken for one; a message
//! whose entry holds no placeable can be formatted all the same.

use vstd::prelude::*;

verus! {

/// What may stand between the parts of a placeable: a space or a line end.
pub open spec fn is_blank(c: char) -> bool {
    c == ' ' || c == '\n' || c == '\r'
}

/// What a number literal is made of: digits, the point and the sign.
pub open spec fn is_numeric(c: char) -> bool {
    0x30 <= c as u32 <= 0x39 || c == '.' || c == '-'
}

/// `c` stands at position `i` of `text`.
pub open spec fn has_at(text: Seq<char>, i: int, c: char) -> bool {
    0 <= i < text.len() && text[i] == c
}

/// The arrow `->` of a select expression stands at position `j`.
pub open spec fn arrow_at(text: Seq<char>, j: int) -> bool {
    has_at(text, j, '-') && has_at(text, j + 1, '>')
}

/// The first position at or after `from` that holds no blank.
pub open spec fn after_blanks(text: Seq<char>, from: int) -> int
    decreases text.len() - from,
{
    if 0 <= from < text.len() && is_blank(text[from]) {
        after_blanks(text, from + 1)
    } else {
        from
    }
}

/// The line that position `i` stands on begins with `#`: it is a comment.
pub open spec fn comment_line(text: Seq<char>, i: int) -> bool
    decreases i,
{
    if i <= 0 {
        has_at(text, 0, '#')
    } else if i > text.len() {
        false
    } else if text[i - 1] == '\n' {
        has_at(text, i, '#')
    } else {
        comment_line(text, i - 1)
    }
}

/// An opening brace stands before position `i`, on a line that is no comment.
pub open spec fn brace_before(text: Seq<char>, i: int) -> bool
    decreases i,
{
    if i <= 0 || i > text.len() {
        false
    } else {
        (text[i - 1] == '{' && !comment_line(text, i - 1)) || brace_before(text, i - 1)
    }
}

/// A `\u` escape with one of its four digits, or a `\U` escape with one of its
/// six, beyond ASCII begins at position `i`.
pub open spec fn risky_escape_at(text: Seq<char>, i: int) -> bool {
    has_at(text, i, '\\') && exists|k: int|
        i + 2 <= k < i + 2 + escape_width(text, i) && #[trigger] beyond_ascii(text, k)
}

/// How many digits the escape at position `i` takes: four behind `\u`, six
/// behind `\U`, none where no escape begins.
pub open spec fn escape_width(text: Seq<char>, i: int) -> int {
    if has_at(text, i + 1, 'u') {
        4
    } else if has_at(text, i + 1, 'U') {
        6
    } else {
        0
    }
}

/// A character beyond ASCII stands at position `k`.
pub open spec fn beyond_ascii(text: Seq<char>, k: int) -> bool {
    0 <= k < text.len() && text[k] as u32 > 0x7f
}

/// A placeable begins at position `i` whose first part is another placeable.
pub open spec fn nested_placeable_at(text: Seq<char>, i: int) -> bool {
    has_at(text, i, '{') && has_at(text, after_blanks(text, i + 1), '{')
}

/// A placeable begins at position `i`, and an arrow follows with nothing but
/// blanks and the characters of number literals in between.
pub open spec fn number_selector_at(text: Seq<char>, i: int) -> bool {
    has_at(text, i, '{') && exists|j: int|
        i < j && #[trigger] arrow_at(text, j) && only_numeric_between(text, i, j)
}

/// Nothing but blanks and the characters of number literals stands strictly
/// between `i` and `j`.
pub open spec fn only_numeric_between(text: Seq<char>, i: int, j: int) -> bool {
    forall|k: int| i < k < j ==> is_numeric(#[trigger] text[k]) || is_blank(text[k])
}

/// A placeable begins at position `i` whose first part begins with a quote,
/// and on the same line a later quote is followed by an arrow.
pub open spec fn string_selector_at(text: Seq<char>, i: int) -> bool {
    let first = after_blanks(text, i + 1);
    has_at(text, i, '{') && has_at(text, first, '"') && exists|p: int|
        first < p && #[trigger] quote_before_arrow(text, p) && same_line(text, first, p)
}

/// A quote stands at position `p`, and behind it come blanks and an arrow.
pub open spec fn quote_before_arrow(text: Seq<char>, p: int) -> bool {
    has_at(text, p, '"') && arrow_at(text, after_blanks(text, p + 1))
}

/// No line feed stands strictly between `from` and `to`.
pub open spec fn same_line(text: Seq<char>, from: int, to: int) -> bool {
    forall|k: int| from < k < to ==> #[trigger] text[k] != '\n'
}

/// How many digits behind a point are too many.
pub const FRACTION_LIMIT: usize = 20;

/// `c` is a digit.
pub open spec fn is_digit(c: char) -> bool {
    0x30 <= c as u32 <= 0x39
}

/// A point stands at position `i`, and twenty digits follow it.
pub open spec fn long_fraction_at(text: Seq<char>, i: int) -> bool {
    has_at(text, i, '.') && i + FRACTION_LIMIT < text.len() && forall|k: int|
        i < k <= i + FRACTION_LIMIT ==> is_digit(#[trigger] text[k])
}

/// A colon stands before position `i` with nothing but blanks and the
/// characters of number literals in between: what stands at `i` may belong to
/// the value of a named argument.
pub open spec fn named_argument_before(text: Seq<char>, i: int) -> bool {
    exists|c: int| 0 <= c < i && #[trigger] has_at(text, c, ':') && only_numeric_between(text, c, i)
}

/// A shape that the formatter may fail on begins at position `i`, on a line
/// that is no comment: a placeable inside a placeable, a literal selector, or
/// a long fraction in the value of a named argument behind a brace.
pub open spec fn shape_refused_at(text: Seq<char>, i: int) -> bool {
    !comment_line(text, i) && (nested_placeable_at(text, i) || number_selector_at(text, i)
        || string_selector_at(text, i) || (long_fraction_at(text, i) && brace_before(text, i)
        && named_argument_before(text, i)))
}

/// The parser can be handed `text` as it is: no risky escape begins anywhere.
pub open spec fn parses_safely(text: Seq<char>) -> bool {
    forall|i: int| 0 <= i < text.len() ==> !risky_escape_at(text, i)
}

/// Position `i` is one of the places where the digits of an escape stand:
/// behind a `\u` by no more than four, behind a `\U` by no more than six.
pub open spec fn in_escape(text: Seq<char>, i: int) -> bool {
    exists|b: int| #[trigger]
        has_at(text, b, '\\') && b + 2 <= i < b + 2 + escape_width(text, b)
}

/// `text` with every character beyond ASCII that stands among the digits of
/// an escape replaced by `?`, which the parser reads as it reads any
/// character beyond ASCII, but for not failing on it.
pub open spec fn neutral(text: Seq<char>) -> Seq<char> {
    Seq::new(
        text.len(),
        |i: int|
            if beyond_ascii(text, i) && in_escape(text, i) {
                '?'
            } else {
                text[i]
            },
    )
}

/// The neutral form of a text holds no risky escape.
pub proof fn lemma_neutral_parses_safely(text: Seq<char>)
    ensures
        parses_safely(neutral(text)),
{
    let plain = neutral(text);
    assert forall|i: int| 0 <= i < plain.len() implies !risky_escape_at(plain, i) by {
        if risky_escape_at(plain, i) {
            let k = choose|k: int|
                i + 2 <= k < i + 2 + escape_width(plain, i) && #[trigger] beyond_ascii(plain, k);
            assert(plain[i] == '\\' && text[i] == '\\');
            assert(plain[i + 1] == text[i + 1]);
            assert(has_at(text, i, '\\') && i + 2 <= k < i + 2 + escape_width(text, i));
            assert(text[k] == plain[k]);
        }
    }
}


/// The messages of `text` can be formatted: no shape that the formatter may
/// fail on begins anywhere.
pub open spec fn formats_safely(text: Seq<char>) -> bool {
    forall|i: int| 0 <= i < text.len() ==> !shape_refused_at(text, i)
}

/// Whether `c` is a blank.
pub fn blank(c: char) -> (b: bool)
    ensures
        b == is_blank(c),
{
    c == ' ' || c == '\n' || c == '\r'
}

/// Whether `c` can stand in a number literal.
pub fn numeric(c: char) -> (b: bool)
    ensures
        b == is_numeric(c),
{
    let n: u32 = c as u32;
    (0x30 <= n && n <= 0x39) || c == '.' || c == '-'
}

/// Whether the arrow stands at position `j`.
pub fn is_arrow(text: &[char], j: usize) -> (b: bool)
    ensures
        b == arrow_at(text@, j as int),
{
    j < text.len() && text[j] == '-' && j + 1 < text.len() && text[j + 1] == '>'
}

/// The first position at or after `from` that holds no blank.
pub fn skip_blanks(text: &[char], from: usize) -> (at: usize)
    requires
        from <= text@.len(),
    ensures
        at == after_blanks(text@, from as int),
        from <= at <= text@.len(),
{
    let mut at = from;
    while at < text.len() && blank(text[at])
        invariant
            from <= at <= text@.len(),
            after_blanks(text@, from as int) == after_blanks(text@, at as int),
        decreases text@.len() - at,
    {
        at += 1;
    }
    at
}

/// Whether a risky escape begins at position `i`.
pub fn is_risky_escape(text: &[char], i: usize) -> (b: bool)
    ensures
        b == risky_escape_at(text@, i as int),
{
    if i >= text.len() || text[i] != '\\' || i + 1 >= text.len() {
        return false;
    }
    let width: usize = if text[i + 1] == 'u' {
        4
    } else if text[i + 1] == 'U' {
        6
    } else {
        return false;
    };
    let mut done: usize = 0;
    let mut k: usize = i + 2;
    while done < width && k < text.len()
        invariant
            k == i + 2 + done,
            k <= text@.len(),
            done <= width <= 6,
            has_at(text@, i as int, '\\'),
            width == escape_width(text@, i as int),
            forall|at: int| i + 2 <= at < k ==> !beyond_ascii(text@, at),
        decreases width - done,
    {
        if text[k] as u32 > 0x7f {
            assert(beyond_ascii(text@, k as int));
            return true;
        }
        done += 1;
        k += 1;
    }
    false
}

/// Whether a placeable whose first part is another placeable begins at
/// position `i`.
pub fn is_nested_placeable(text: &[char], i: usize) -> (b: bool)
    ensures
        b == nested_placeable_at(text@, i as int),
{
    if i >= text.len() || text[i] != '{' {
        return false;
    }
    let first = skip_blanks(text, i + 1);
    first < text.len() && text[first] == '{'
}

/// Whether a placeable begins at position `i` with an arrow behind nothing but
/// blanks and the characters of number literals.
pub fn is_number_selector(text: &[char], i: usize) -> (b: bool)
    ensures
        b == number_selector_at(text@, i as int),
{
    if i >= text.len() || text[i] != '{' {
        return false;
    }
    let mut j: usize = i + 1;
    while j < text.len()
        invariant
            i < j <= text@.len(),
            has_at(text@, i as int, '{'),
            only_numeric_between(text@, i as int, j as int),
            forall|k: int| i < k < j ==> !arrow_at(text@, k),
        decreases text@.len() - j,
    {
        if is_arrow(text, j) {
            assert(arrow_at(text@, j as int));
            return true;
        }
        if !numeric(text[j]) && !blank(text[j]) {
            assert forall|k: int| i < k && arrow_at(text@, k) implies !only_numeric_between(
                text@,
                i as int,
                k,
            ) by {
                if k > j {
                    assert(!(is_numeric(text@[j as int]) || is_blank(text@[j as int])));
                }
            }
            return false;
        }
        j += 1;
    }
    false
}

/// Whether a placeable begins at position `i` with a quote, and a later quote
/// on the same line is followed by an arrow.
pub fn is_string_selector(text: &[char], i: usize) -> (b: bool)
    ensures
        b == string_selector_at(text@, i as int),
{
    if i >= text.len() || text[i] != '{' {
        return false;
    }
    let first = skip_blanks(text, i + 1);
    if first >= text.len() || text[first] != '"' {
        return false;
    }
    let mut p: usize = first + 1;
    while p < text.len()
        invariant
            first < p <= text@.len(),
            first == after_blanks(text@, i + 1),
            has_at(text@, i as int, '{'),
            has_at(text@, first as int, '"'),
            same_line(text@, first as int, p as int),
            forall|k: int| first < k < p ==> !quote_before_arrow(text@, k),
        decreases text@.len() - p,
    {
        if text[p] == '"' {
            let behind = skip_blanks(text, p + 1);
            if is_arrow(text, behind) {
                assert(quote_before_arrow(text@, p as int));
                return true;
            }
        }
        if text[p] == '\n' {
            assert forall|k: int| first < k && quote_before_arrow(text@, k) implies !same_line(
                text@,
                first as int,
                k,
            ) by {
                if k > p {
                    assert(text@[p as int] == '\n');
                }
            }
            return false;
        }
        p += 1;
    }
    false
}

/// Whether a point with twenty digits behind it stands at position `i`.
pub fn is_long_fraction(text: &[char], i: usize) -> (b: bool)
    ensures
        b == long_fraction_at(text@, i as int),
{
    if i >= text.len() || text[i] != '.' || text.len() - i <= FRACTION_LIMIT {
        return false;
    }
    let len = text.len();
    let mut done: usize = 0;
    while done < FRACTION_LIMIT
        invariant
            done <= FRACTION_LIMIT,
            len == text@.len(),
            i + FRACTION_LIMIT < text@.len(),
            has_at(text@, i as int, '.'),
            forall|k: int| i < k <= i + done ==> is_digit(#[trigger] text@[k]),
        decreases FRACTION_LIMIT - done,
    {
        let n: u32 = text[i + 1 + done] as u32;
        if n < 0x30 || n > 0x39 {
            assert(!is_digit(text@[i + 1 + done]));
            return false;
        }
        done += 1;
    }
    true
}

/// Whether a colon stands before position `i` with nothing but blanks and the
/// characters of number literals in between.
pub fn is_named_argument(text: &[char], i: usize) -> (b: bool)
    requires
        i <= text@.len(),
    ensures
        b == named_argument_before(text@, i as int),
{
    let mut j: usize = i;
    while j > 0 && (numeric(text[j - 1]) || blank(text[j - 1]))
        invariant
            j <= i <= text@.len(),
            only_numeric_between(text@, j - 1, i as int),
        decreases j,
    {
        j -= 1;
    }
    if j > 0 && text[j - 1] == ':' {
        assert(has_at(text@, j - 1, ':'));
        true
    } else {
        assert forall|c: int| 0 <= c < i && has_at(text@, c, ':') implies !only_numeric_between(
            text@,
            c,
            i as int,
        ) by {
            if c < j - 1 {
                assert(!(is_numeric(text@[j - 1]) || is_blank(text@[j - 1])));
            }
        }
        false
    }
}

/// What a pass over a text knows of the position it has come to.
pub struct Place {
    /// The position stands on a comment line.
    pub comment: bool,
    /// An opening brace stands before the position, outside comments.
    pub braced: bool,
}

impl Place {
    /// What is known of position `i` of `text`.
    pub open spec fn of(text: Seq<char>, i: int) -> Place {
        Place { comment: comment_line(text, i), braced: brace_before(text, i) }
    }

    /// What is known of the first position of `text`.
    pub fn first(text: &[char]) -> (place: Place)
        ensures
            place == Place::of(text@, 0),
    {
        Place { comment: text.len() > 0 && text[0] == '#', braced: false }
    }

    /// What is known of position `i + 1`, given what is known of `i`.
    pub fn next(&self, text: &[char], i: usize) -> (place: Place)
        requires
            i < text@.len(),
            *self == Place::of(text@, i as int),
        ensures
            place == Place::of(text@, i + 1),
    {
        let c = text[i];
        if c == '\n' {
            Place { comment: i + 1 < text.len() && text[i + 1] == '#', braced: self.braced }
        } else {
            Place { comment: self.comment, braced: self.braced || (c == '{' && !self.comment) }
        }
    }
}

/// Whether the parser can be handed `text` as it is.
pub fn escapes_parse_safely(text: &[char]) -> (safe: bool)
    ensures
        safe == parses_safely(text@),
{
    let mut i: usize = 0;
    while i < text.len()
        invariant
            i <= text@.len(),
            forall|k: int| 0 <= k < i ==> !risky_escape_at(text@, k),
        decreases text@.len() - i,
    {
        if is_risky_escape(text, i) {
            return false;
        }
        i += 1;
    }
    true
}

/// Whether position `i` is one of the places where the digits of an escape
/// stand.
pub fn is_in_escape(text: &[char], i: usize) -> (b: bool)
    requires
        i < text@.len(),
    ensures
        b == in_escape(text@, i as int),
{
    let mut back: usize = 2;
    while back <= 7 && back <= i
        invariant
            2 <= back <= 8,
            i < text@.len(),
            forall|b: int|
                i - back < b && #[trigger] has_at(text@, b, '\\') ==> !(b + 2 <= i < b + 2
                    + escape_width(text@, b)),
        decreases 8 - back,
    {
        let at = i - back;
        if text[at] == '\\' && ((text[at + 1] == 'u' && back < 6) || (text[at + 1] == 'U' && back
            < 8)) {
            assert(has_at(text@, at as int, '\\') && at + 2 <= i < at + 2 + escape_width(
                text@,
                at as int,
            ));
            return true;
        }
        back += 1;
    }
    false
}

/// The neutral form of `text`.
pub fn neutralise(text: &[char]) -> (plain: Vec<char>)
    ensures
        plain@ == neutral(text@),
{
    let mut plain: Vec<char> = Vec::new();
    let mut i: usize = 0;
    while i < text.len()
        invariant
            i <= text@.len(),
            plain@.len() == i,
            forall|k: int| 0 <= k < i ==> plain@[k] == neutral(text@)[k],
        decreases text@.len() - i,
    {
        let c = text[i];
        if c as u32 > 0x7f && is_in_escape(text, i) {
            plain.push('?');
        } else {
            plain.push(c);
        }
        i += 1;
    }
    assert(plain@ =~= neutral(text@));
    plain
}

/// Whether the messages of `text` can be formatted.
pub fn shapes_format_safely(text: &[char]) -> (safe: bool)
    ensures
        safe == formats_safely(text@),
{
    let mut place = Place::first(text);
    let mut i: usize = 0;
    while i < text.len()
        invariant
            i <= text@.len(),
            place == Place::of(text@, i as int),
            forall|k: int| 0 <= k < i ==> !shape_refused_at(text@, k),
        decreases text@.len() - i,
    {
        if !place.comment && (is_nested_placeable(text, i) || is_number_selector(text, i)
            || is_string_selector(text, i) || (place.braced && is_long_fraction(text, i)
            && is_named_argument(text, i))) {
            assert(shape_refused_at(text@, i as int));
            return false;
        }
        place = place.next(text, i);
        i += 1;
    }
    true
}

/// A line begins at position `at`.
pub open spec fn line_begins(text: Seq<char>, at: int) -> bool {
    0 <= at < text.len() && (at == 0 || text[at - 1] == '\n')
}

/// `word` stands at position `at`.
pub open spec fn word_at(text: Seq<char>, at: int, word: Seq<char>) -> bool {
    0 <= at && at + word.len() <= text.len() && text.subrange(at, at + word.len()) == word
}

/// The first position at or after `from` that holds no space.
pub open spec fn after_spaces(text: Seq<char>, from: int) -> int
    decreases text.len() - from,
{
    if 0 <= from < text.len() && text[from] == ' ' {
        after_spaces(text, from + 1)
    } else {
        from
    }
}

/// The entry of the message `key` begins at position `at`: a line begins
/// there with `key`, spaces and `=`.
pub open spec fn entry_of_at(text: Seq<char>, at: int, key: Seq<char>) -> bool {
    line_begins(text, at) && word_at(text, at, key) && has_at(
        text,
        after_spaces(text, at + key.len()),
        '=',
    )
}

/// What an entry can begin with: a letter, `-` or `#`.
pub open spec fn is_entry_starter(c: char) -> bool {
    0x41 <= c as u32 <= 0x5a || 0x61 <= c as u32 <= 0x7a || c == '-' || c == '#'
}

/// An entry begins at position `at`.
pub open spec fn entry_begins(text: Seq<char>, at: int) -> bool {
    line_begins(text, at) && is_entry_starter(text[at])
}

/// An entry begins behind `at`, and no later than `upto`.
pub open spec fn later_entry_between(text: Seq<char>, at: int, upto: int) -> bool {
    exists|e: int| at < e <= upto && #[trigger] entry_begins(text, e)
}

/// The entry that begins at `at` holds no opening brace: every brace at or
/// behind `at` stands behind the beginning of a later entry.
pub open spec fn braceless_from(text: Seq<char>, at: int) -> bool {
    forall|p: int| at <= p && #[trigger] has_at(text, p, '{') ==> later_entry_between(text, at, p)
}

/// The message `key` of `text` is plain text: its entry holds no placeable, in
/// its value or in its attributes, so that formatting it writes out text and
/// nothing else.
pub open spec fn plain_message(text: Seq<char>, key: Seq<char>) -> bool {
    exists|at: int| #[trigger] entry_of_at(text, at, key) && braceless_from(text, at)
}

/// The message `key` of `text` can be formatted: the text holds no shape that
/// the formatter may fail on, or the message is plain text.
pub open spec fn message_formats(text: Seq<char>, key: Seq<char>) -> bool {
    formats_safely(text) || plain_message(text, key)
}

/// The first position at or after `from` that holds no space.
pub fn skip_spaces(text: &[char], from: usize) -> (at: usize)
    requires
        from <= text@.len(),
    ensures
        at == after_spaces(text@, from as int),
        from <= at <= text@.len(),
{
    let mut at = from;
    while at < text.len() && text[at] == ' '
        invariant
            from <= at <= text@.len(),
            after_spaces(text@, from as int) == after_spaces(text@, at as int),
        decreases text@.len() - at,
    {
        at += 1;
    }
    at
}

/// Whether `word` stands at position `at`.
pub fn is_word_at(text: &[char], at: usize, word: &[char]) -> (b: bool)
    ensures
        b == word_at(text@, at as int, word@),
{
    if at > text.len() || word.len() > text.len() - at {
        return false;
    }
    let ghost window = text@.subrange(at as int, at + word@.len());
    let len = text.len();
    let mut k: usize = 0;
    while k < word.len()
        invariant
            k <= word@.len(),
            len == text@.len(),
            at + word@.len() <= text@.len(),
            window == text@.subrange(at as int, at + word@.len()),
            forall|j: int| 0 <= j < k ==> window[j] == word@[j],
        decreases word@.len() - k,
    {
        if text[at + k] != word[k] {
            assert(window[k as int] != word@[k as int]);
            return false;
        }
        k += 1;
    }
    assert(window =~= word@);
    true
}

/// Whether an entry begins at position `at`.
pub fn is_entry_start(text: &[char], at: usize) -> (b: bool)
    ensures
        b == entry_begins(text@, at as int),
{
    if at >= text.len() || (at > 0 && text[at - 1] != '\n') {
        return false;
    }
    let n: u32 = text[at] as u32;
    (0x41 <= n && n <= 0x5a) || (0x61 <= n && n <= 0x7a) || text[at] == '-' || text[at] == '#'
}

/// Whether the entry that begins at `at` holds no opening brace.
pub fn is_braceless_from(text: &[char], at: usize) -> (b: bool)
    ensures
        b == braceless_from(text@, at as int),
{
    let mut p: usize = at;
    while p < text.len()
        invariant
            at <= p,
            forall|q: int| at <= q < p ==> !has_at(text@, q, '{'),
            forall|e: int| at < e < p ==> !entry_begins(text@, e),
        decreases text@.len() - p,
    {
        if p > at && is_entry_start(text, p) {
            assert forall|q: int| at <= q && #[trigger] has_at(text@, q, '{') implies later_entry_between(
                text@,
                at as int,
                q,
            ) by {
                assert(entry_begins(text@, p as int));
            }
            return true;
        }
        if text[p] == '{' {
            assert(has_at(text@, p as int, '{'));
            assert(!later_entry_between(text@, at as int, p as int));
            return false;
        }
        p += 1;
    }
    true
}

/// Whether the message `key` of `text` is plain text.
pub fn is_plain_message(text: &[char], key: &[char]) -> (b: bool)
    ensures
        b == plain_message(text@, key@),
{
    let mut at: usize = 0;
    while at < text.len()
        invariant
            forall|k: int| k < at ==> !(entry_of_at(text@, k, key@) && braceless_from(text@, k)),
        decreases text@.len() - at,
    {
        if (at == 0 || text[at - 1] == '\n') && is_word_at(text, at, key) {
            let behind = skip_spaces(text, at + key.len());
            if behind < text.len() && text[behind] == '=' && is_braceless_from(text, at) {
                assert(entry_of_at(text@, at as int, key@));
                return true;
            }
        }
        at += 1;
    }
    false
}

} // verus!
