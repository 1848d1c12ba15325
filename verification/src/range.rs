//! Reading a range argument such as `5s,10s` or `00:05,01:30`.
//!
//! A range has two parts with a comma between them. Both are durations (a
//! whole number and one of the units `s`, `m`, `h`) or both are clock
//! readings (`H:MM:SS` or `MM:SS`). Either way a part is an offset from the
//! earliest time of a track.

use crate::decimal::{digits_from, is_digit, is_sign};
use crate::instant::{Duration, TrimRange};
use vstd::prelude::*;
use vstd::slice::slice_subrange;
use vstd::string::StringSliceAdditionalSpecFns;

verus! {

/// Why a range argument could not be read.
#[derive(Clone, Copy, Debug, PartialEq, Eq, Structural)]
pub enum RangeError {
    /// A duration was empty.
    EmptyDuration,
    /// What should be a whole number is none.
    InvalidNumber,
    /// A whole number is too large to work with.
    NumberTooLarge,
    /// A duration ends in something other than `s`, `m` or `h`.
    InvalidUnit { unit: u8 },
    /// A clock reading has not two or three parts.
    InvalidTimestamp,
    /// A range has not two parts.
    PartCount,
    /// The offset is longer than a duration can hold.
    OutOfRange,
}

impl RangeError {
    /// What went wrong, in words.
    pub open spec fn words(self) -> Seq<char> {
        match self {
            RangeError::EmptyDuration => "Empty duration"@,
            RangeError::InvalidNumber => "invalid digit found in string"@,
            RangeError::NumberTooLarge => "number too large to fit in target type"@,
            RangeError::InvalidUnit { .. } => "Invalid duration unit"@,
            RangeError::InvalidTimestamp => "Invalid timestamp format"@,
            RangeError::PartCount => "Range must have exactly two parts separated by comma"@,
            RangeError::OutOfRange => "overflow constructing a duration"@,
        }
    }

    /// What went wrong, in words.
    pub fn message(&self) -> (text: &'static str)
        ensures
            text@ == self.words(),
    {
        match self {
            RangeError::EmptyDuration => "Empty duration",
            RangeError::InvalidNumber => "invalid digit found in string",
            RangeError::NumberTooLarge => "number too large to fit in target type",
            RangeError::InvalidUnit { .. } => "Invalid duration unit",
            RangeError::InvalidTimestamp => "Invalid timestamp format",
            RangeError::PartCount => "Range must have exactly two parts separated by comma",
            RangeError::OutOfRange => "overflow constructing a duration",
        }
    }
}

/// The byte of the comma that parts the two offsets of a range.
pub const COMMA: u8 = 0x2c;

/// The byte of the colon that parts the numbers of a clock reading.
pub const COLON: u8 = 0x3a;

/// Whether `n` can be held in 64 bits with a sign.
pub open spec fn fits_i64(n: int) -> bool {
    i64::MIN <= n <= i64::MAX
}

/// The number that a row of digits spells.
pub open spec fn digits_value(digits: Seq<u8>) -> int
    decreases digits.len(),
{
    if digits.len() == 0 {
        0
    } else {
        digits_value(digits.drop_last()) * 10 + (digits.last() - 0x30)
    }
}

/// The whole number that `text` spells: an optional sign and one digit or
/// more. `None` for any other text.
pub open spec fn integer_of(text: Seq<u8>) -> Option<int> {
    let signed = text.len() > 0 && is_sign(text[0]);
    let digits = if signed {
        text.skip(1)
    } else {
        text
    };
    if digits.len() > 0 && digits_from(digits, 0) == digits.len() {
        if signed && text[0] == 0x2d {
            Some(-digits_value(digits))
        } else {
            Some(digits_value(digits))
        }
    } else {
        None
    }
}

/// The whole number that `text` spells, as far as it can be held.
pub open spec fn number_of(text: Seq<u8>) -> Result<i64, RangeError> {
    match integer_of(text) {
        None => Err(RangeError::InvalidNumber),
        Some(n) => if fits_i64(n) {
            Ok(n as i64)
        } else {
            Err(RangeError::NumberTooLarge)
        },
    }
}

/// The seconds in the unit that `unit` names: `s`, `m` or `h`.
pub open spec fn unit_seconds(unit: u8) -> Option<int> {
    if unit == 0x73 {
        Some(1)
    } else if unit == 0x6d {
        Some(60)
    } else if unit == 0x68 {
        Some(3600)
    } else {
        None
    }
}

/// The duration that `text` spells: a whole number and a unit.
pub open spec fn duration_of(text: Seq<u8>) -> Result<Duration, RangeError> {
    if text.len() == 0 {
        Err(RangeError::EmptyDuration)
    } else {
        match number_of(text.drop_last()) {
            Err(e) => Err(e),
            Ok(n) => match unit_seconds(text.last()) {
                None => Err(RangeError::InvalidUnit { unit: text.last() }),
                Some(factor) => if fits_i64(n * factor) {
                    Ok(Duration { secs: (n * factor) as i64 })
                } else {
                    Err(RangeError::OutOfRange)
                },
            },
        }
    }
}

/// The first position from `from` on at which `text` holds `byte`, or the
/// length of `text` if there is none.
pub open spec fn index_of(text: Seq<u8>, byte: u8, from: int) -> int
    decreases text.len() - from,
{
    if from < 0 || from >= text.len() {
        text.len() as int
    } else if text[from] == byte {
        from
    } else {
        index_of(text, byte, from + 1)
    }
}

/// The offset that a clock reading of hours, minutes and seconds gives, if
/// each is a number and the whole can be held. The first part that is no
/// number decides the error.
pub open spec fn clock_of(
    hours: Result<i64, RangeError>,
    minutes: Result<i64, RangeError>,
    seconds: Result<i64, RangeError>,
) -> Result<Duration, RangeError> {
    match (hours, minutes, seconds) {
        (Err(e), _, _) => Err(e),
        (Ok(_), Err(e), _) => Err(e),
        (Ok(_), Ok(_), Err(e)) => Err(e),
        (Ok(h), Ok(m), Ok(s)) => if fits_i64(h * 3600 + m * 60 + s) {
            Ok(Duration { secs: (h * 3600 + m * 60 + s) as i64 })
        } else {
            Err(RangeError::OutOfRange)
        },
    }
}

/// The offset that `text` spells as a clock reading: `MM:SS` or
/// `H:MM:SS`, each part a whole number.
pub open spec fn timestamp_of(text: Seq<u8>) -> Result<Duration, RangeError> {
    let len = text.len() as int;
    let first = index_of(text, COLON, 0);
    let second = index_of(text, COLON, first + 1);
    let third = index_of(text, COLON, second + 1);
    if first == len {
        Err(RangeError::InvalidTimestamp)
    } else if second == len {
        clock_of(
            Ok(0),
            number_of(text.subrange(0, first)),
            number_of(text.subrange(first + 1, len)),
        )
    } else if third == len {
        clock_of(
            number_of(text.subrange(0, first)),
            number_of(text.subrange(first + 1, second)),
            number_of(text.subrange(second + 1, len)),
        )
    } else {
        Err(RangeError::InvalidTimestamp)
    }
}

/// The number of bytes of the white space character that starts at the
/// position `at` of a UTF-8 text, or 0 if none starts there.
///
/// White space is what Unicode calls so: the ASCII characters tab, line
/// feed, vertical tab, form feed, carriage return and space, and U+0085,
/// U+00A0, U+1680, U+2000 to U+200A, U+2028, U+2029, U+202F, U+205F and
/// U+3000.
pub open spec fn space_width(text: Seq<u8>, at: int) -> int {
    if at < 0 || at >= text.len() {
        0
    } else if (0x09 <= text[at] <= 0x0d) || text[at] == 0x20 {
        1
    } else if at + 1 < text.len() && text[at] == 0xc2 && (text[at + 1] == 0x85 || text[at + 1]
        == 0xa0) {
        2
    } else if at + 2 < text.len() && {
        ||| text[at] == 0xe1 && text[at + 1] == 0x9a && text[at + 2] == 0x80
        ||| text[at] == 0xe2 && text[at + 1] == 0x80 && ((0x80 <= text[at + 2] <= 0x8a)
            || text[at + 2] == 0xa8 || text[at + 2] == 0xa9 || text[at + 2] == 0xaf)
        ||| text[at] == 0xe2 && text[at + 1] == 0x81 && text[at + 2] == 0x9f
        ||| text[at] == 0xe3 && text[at + 1] == 0x80 && text[at + 2] == 0x80
    } {
        3
    } else {
        0
    }
}

/// The number of bytes of the white space character that ends just before
/// the position `end` of a UTF-8 text, or 0 if none ends there.
pub open spec fn space_width_before(text: Seq<u8>, end: int) -> int {
    if space_width(text, end - 1) == 1 {
        1
    } else if space_width(text, end - 2) == 2 {
        2
    } else if space_width(text, end - 3) == 3 {
        3
    } else {
        0
    }
}

/// The position of the first character from `at` on that is no white
/// space.
pub open spec fn trim_start(text: Seq<u8>, at: int) -> int
    decreases text.len() - at,
{
    if space_width(text, at) > 0 {
        trim_start(text, at + space_width(text, at))
    } else {
        at
    }
}

/// The position behind the last character before `end` that is no white
/// space, not going back beyond `start`.
pub open spec fn trim_end(text: Seq<u8>, start: int, end: int) -> int
    decreases end,
{
    let width = space_width_before(text, end);
    if width > 0 && start <= end - width {
        trim_end(text, start, end - width)
    } else {
        end
    }
}

/// `text` without the white space at its start and at its end.
pub open spec fn trimmed(text: Seq<u8>) -> Seq<u8> {
    let start = trim_start(text, 0);
    if 0 <= start <= text.len() {
        text.subrange(start, trim_end(text, start, text.len() as int))
    } else {
        text
    }
}

/// Whether `text` holds a colon.
pub open spec fn has_colon(text: Seq<u8>) -> bool {
    index_of(text, COLON, 0) < text.len()
}

/// The range that two parts give: clock readings if either holds a colon,
/// durations if not. The first part that cannot be read decides the error.
pub open spec fn range_of_parts(first: Seq<u8>, second: Seq<u8>) -> Result<TrimRange, RangeError> {
    if has_colon(first) || has_colon(second) {
        match (timestamp_of(first), timestamp_of(second)) {
            (Err(e), _) => Err(e),
            (Ok(_), Err(e)) => Err(e),
            (Ok(start), Ok(end)) => Ok(TrimRange::Timestamp { start, end }),
        }
    } else {
        match (duration_of(first), duration_of(second)) {
            (Err(e), _) => Err(e),
            (Ok(_), Err(e)) => Err(e),
            (Ok(start), Ok(end)) => Ok(TrimRange::Duration { start, end }),
        }
    }
}

/// The range that `text` spells: two parts with one comma between them,
/// each without the white space around it.
pub open spec fn range_of(text: Seq<u8>) -> Result<TrimRange, RangeError> {
    let len = text.len() as int;
    let comma = index_of(text, COMMA, 0);
    if comma == len || index_of(text, COMMA, comma + 1) != len {
        Err(RangeError::PartCount)
    } else {
        range_of_parts(trimmed(text.subrange(0, comma)), trimmed(text.subrange(comma + 1, len)))
    }
}

/// The value of a row of digits grows by one digit at a time.
proof fn lemma_digits_value_step(digits: Seq<u8>, k: int)
    requires
        0 <= k < digits.len(),
    ensures
        digits_value(digits.take(k + 1)) == digits_value(digits.take(k)) * 10 + (digits[k]
            - 0x30),
{
    assert(digits.take(k + 1).drop_last() =~= digits.take(k));
}

/// The number of digits up to a position that only digits lead to.
proof fn lemma_digits_from_prefix(text: Seq<u8>, k: int)
    requires
        0 <= k <= text.len(),
        forall|i: int| 0 <= i < k ==> is_digit(#[trigger] text[i]),
    ensures
        digits_from(text, 0) == k + digits_from(text, k),
    decreases k,
{
    lemma_digits_from_suffix(text, 0, k);
}

proof fn lemma_digits_from_suffix(text: Seq<u8>, from: int, k: int)
    requires
        0 <= from <= k <= text.len(),
        forall|i: int| from <= i < k ==> is_digit(#[trigger] text[i]),
    ensures
        digits_from(text, from) == (k - from) + digits_from(text, k),
    decreases k - from,
{
    if from < k {
        lemma_digits_from_suffix(text, from + 1, k);
    }
}

/// The number of digits in a row never exceeds what is left of the text.
proof fn lemma_digits_from_bound(text: Seq<u8>, from: int)
    requires
        0 <= from <= text.len(),
    ensures
        0 <= digits_from(text, from) <= text.len() - from,
    decreases text.len() - from,
{
    if from < text.len() && is_digit(text[from]) {
        lemma_digits_from_bound(text, from + 1);
    }
}

/// The whole number that `text` spells.
///
/// Fails with `InvalidNumber` unless `text` is an optional sign and one
/// digit or more, and with `NumberTooLarge` if the number cannot be held
/// in 64 bits.
pub fn parse_integer(text: &[u8]) -> (r: Result<i64, RangeError>)
    ensures
        r == number_of(text@),
{
    let signed = text.len() > 0 && (text[0] == 0x2b || text[0] == 0x2d);
    let negative = signed && text[0] == 0x2d;
    let from: usize = if signed {
        1
    } else {
        0
    };
    let ghost digits = if signed {
        text@.skip(1)
    } else {
        text@
    };
    if from >= text.len() {
        return Err(RangeError::InvalidNumber);
    }
    let limit: i128 = 0x8000_0000_0000_0000;
    let mut value: i128 = 0;
    let mut too_large = false;
    let mut k: usize = from;
    assert(digits.take(0) =~= Seq::<u8>::empty());
    while k < text.len()
        invariant
            from <= k <= text.len(),
            signed == (text.len() > 0 && is_sign(text@[0])),
            from == if signed { 1usize } else { 0usize },
            digits == if signed { text@.skip(1) } else { text@ },
            forall|i: int| 0 <= i < k - from ==> is_digit(#[trigger] digits[i]),
            limit == 0x8000_0000_0000_0000,
            0 <= digits_value(digits.take(k - from)),
            too_large ==> digits_value(digits.take(k - from)) > limit,
            !too_large ==> value == digits_value(digits.take(k - from)) && value <= limit,
        decreases text.len() - k,
    {
        let byte = text[k];
        if !(byte >= 0x30 && byte <= 0x39) {
            proof {
                lemma_digits_from_prefix(digits, k - from);
                assert(digits[k - from] == text@[k as int]);
                assert(digits_from(digits, k - from) == 0);
            }
            return Err(RangeError::InvalidNumber);
        }
        proof {
            lemma_digits_value_step(digits, k - from);
        }
        if !too_large {
            value = value * 10 + (byte - 0x30) as i128;
            if value > limit {
                too_large = true;
            }
        }
        k += 1;
    }
    proof {
        assert(digits.take(digits.len() as int) =~= digits);
        lemma_digits_from_prefix(digits, digits.len() as int);
        assert(digits_from(digits, digits.len() as int) == 0);
    }
    if too_large {
        Err(RangeError::NumberTooLarge)
    } else if negative {
        Ok((-value) as i64)
    } else if value == limit {
        Err(RangeError::NumberTooLarge)
    } else {
        Ok(value as i64)
    }
}

/// The first position from `from` on at which `text` holds `byte`, or the
/// length of `text`.
pub fn find_byte(text: &[u8], byte: u8, from: usize) -> (at: usize)
    ensures
        at == index_of(text@, byte, from as int),
        at <= text.len(),
        from <= text.len() ==> from <= at,
{
    if from >= text.len() {
        return text.len();
    }
    let mut at = from;
    while at < text.len() && text[at] != byte
        invariant
            from <= at <= text.len(),
            index_of(text@, byte, from as int) == index_of(text@, byte, at as int),
        decreases text.len() - at,
    {
        at += 1;
    }
    at
}

/// The offset that `text` spells as a duration.
pub fn duration_from_bytes(text: &[u8]) -> (r: Result<Duration, RangeError>)
    ensures
        r == duration_of(text@),
{
    if text.len() == 0 {
        return Err(RangeError::EmptyDuration);
    }
    let last = text.len() - 1;
    let number = slice_subrange(text, 0, last);
    assert(number@ =~= text@.drop_last());
    let n = match parse_integer(number) {
        Err(e) => {
            return Err(e);
        },
        Ok(n) => n,
    };
    let unit = text[last];
    let factor: i64 = if unit == 0x73 {
        1
    } else if unit == 0x6d {
        60
    } else if unit == 0x68 {
        3600
    } else {
        return Err(RangeError::InvalidUnit { unit });
    };
    match n.checked_mul(factor) {
        Some(secs) => Ok(Duration { secs }),
        None => Err(RangeError::OutOfRange),
    }
}

/// The offset of a clock reading whose parts have been read.
fn clock_from_parts(hours: i64, minutes: i64, seconds: i64) -> (r: Result<Duration, RangeError>)
    ensures
        r == clock_of(Ok(hours), Ok(minutes), Ok(seconds)),
{
    let total: i128 = (hours as i128) * 3600 + (minutes as i128) * 60 + (seconds as i128);
    if total < -0x8000_0000_0000_0000 || total > 0x7fff_ffff_ffff_ffff {
        Err(RangeError::OutOfRange)
    } else {
        Ok(Duration { secs: total as i64 })
    }
}

/// The offset that `text` spells as a clock reading.
pub fn timestamp_from_bytes(text: &[u8]) -> (r: Result<Duration, RangeError>)
    ensures
        r == timestamp_of(text@),
{
    let len = text.len();
    let first = find_byte(text, COLON, 0);
    if first == len {
        return Err(RangeError::InvalidTimestamp);
    }
    let second = find_byte(text, COLON, first + 1);
    if second == len {
        let minutes = match parse_integer(slice_subrange(text, 0, first)) {
            Err(e) => {
                return Err(e);
            },
            Ok(n) => n,
        };
        let seconds = match parse_integer(slice_subrange(text, first + 1, len)) {
            Err(e) => {
                return Err(e);
            },
            Ok(n) => n,
        };
        return clock_from_parts(0, minutes, seconds);
    }
    let third = find_byte(text, COLON, second + 1);
    if third != len {
        return Err(RangeError::InvalidTimestamp);
    }
    let hours = match parse_integer(slice_subrange(text, 0, first)) {
        Err(e) => {
            return Err(e);
        },
        Ok(n) => n,
    };
    let minutes = match parse_integer(slice_subrange(text, first + 1, second)) {
        Err(e) => {
            return Err(e);
        },
        Ok(n) => n,
    };
    let seconds = match parse_integer(slice_subrange(text, second + 1, len)) {
        Err(e) => {
            return Err(e);
        },
        Ok(n) => n,
    };
    clock_from_parts(hours, minutes, seconds)
}

/// The number of bytes of the white space character that starts at `at`.
fn space_width_at(text: &[u8], at: usize) -> (width: usize)
    ensures
        width == space_width(text@, at as int),
        width <= 3,
        at + width <= text.len() || width == 0,
{
    let len = text.len();
    if at >= len {
        return 0;
    }
    let b0 = text[at];
    if (b0 >= 0x09 && b0 <= 0x0d) || b0 == 0x20 {
        return 1;
    }
    if len - at >= 2 && b0 == 0xc2 && (text[at + 1] == 0x85 || text[at + 1] == 0xa0) {
        return 2;
    }
    if len - at >= 3 {
        let b1 = text[at + 1];
        let b2 = text[at + 2];
        if (b0 == 0xe1 && b1 == 0x9a && b2 == 0x80) || (b0 == 0xe2 && b1 == 0x80 && ((b2 >= 0x80
            && b2 <= 0x8a) || b2 == 0xa8 || b2 == 0xa9 || b2 == 0xaf)) || (b0 == 0xe2 && b1
            == 0x81 && b2 == 0x9f) || (b0 == 0xe3 && b1 == 0x80 && b2 == 0x80) {
            return 3;
        }
    }
    0
}

/// The number of bytes of the white space character that ends before
/// `end`.
fn space_width_ending(text: &[u8], end: usize) -> (width: usize)
    requires
        end <= text.len(),
    ensures
        width == space_width_before(text@, end as int),
        width <= end,
        width <= 3,
{
    if end >= 1 && space_width_at(text, end - 1) == 1 {
        1
    } else if end >= 2 && space_width_at(text, end - 2) == 2 {
        2
    } else if end >= 3 && space_width_at(text, end - 3) == 3 {
        3
    } else {
        0
    }
}

/// `text` without the white space at its start and at its end.
pub fn trim_bytes(text: &[u8]) -> (r: &[u8])
    ensures
        r@ == trimmed(text@),
{
    let mut start: usize = 0;
    loop
        invariant
            start <= text.len(),
            trim_start(text@, 0) == trim_start(text@, start as int),
        ensures
            start <= text.len(),
            start == trim_start(text@, 0),
        decreases text.len() - start,
    {
        let width = space_width_at(text, start);
        if width == 0 {
            break ;
        }
        start += width;
    }
    let mut end: usize = text.len();
    loop
        invariant
            start <= end <= text.len(),
            trim_end(text@, start as int, text.len() as int) == trim_end(
                text@,
                start as int,
                end as int,
            ),
        ensures
            start <= end <= text.len(),
            end == trim_end(text@, start as int, text.len() as int),
        decreases end,
    {
        let width = space_width_ending(text, end);
        if width == 0 || end - width < start {
            break ;
        }
        end -= width;
    }
    slice_subrange(text, start, end)
}

/// The range that two parts give, each already without the white space
/// around it.
pub fn range_from_parts(first: &[u8], second: &[u8]) -> (r: Result<TrimRange, RangeError>)
    ensures
        r == range_of_parts(first@, second@),
{
    if find_byte(first, COLON, 0) < first.len() || find_byte(second, COLON, 0) < second.len() {
        let start = match timestamp_from_bytes(first) {
            Err(e) => {
                return Err(e);
            },
            Ok(d) => d,
        };
        match timestamp_from_bytes(second) {
            Err(e) => Err(e),
            Ok(end) => Ok(TrimRange::Timestamp { start, end }),
        }
    } else {
        let start = match duration_from_bytes(first) {
            Err(e) => {
                return Err(e);
            },
            Ok(d) => d,
        };
        match duration_from_bytes(second) {
            Err(e) => Err(e),
            Ok(end) => Ok(TrimRange::Duration { start, end }),
        }
    }
}

/// The offset written as a duration: a whole number, which may have a
/// sign, and a unit, `s` for seconds, `m` for minutes or `h` for hours.
///
/// Fails with `EmptyDuration` for the empty text, `InvalidNumber` or
/// `NumberTooLarge` if what stands before the last character is no number
/// that can be held, `InvalidUnit` if the last character is no unit, and
/// `OutOfRange` if the duration is longer than can be held.
pub fn parse_duration(s: &str) -> (r: Result<Duration, RangeError>)
    ensures
        r == duration_of(s.spec_bytes()),
{
    duration_from_bytes(s.as_bytes())
}

/// The offset written as a clock reading: minutes and seconds, or hours,
/// minutes and seconds, with colons between them.
///
/// Fails with `InvalidTimestamp` unless there are two or three parts,
/// `InvalidNumber` or `NumberTooLarge` if a part is no number that can be
/// held, and `OutOfRange` if the offset is longer than can be held.
pub fn parse_timestamp(s: &str) -> (r: Result<Duration, RangeError>)
    ensures
        r == timestamp_of(s.spec_bytes()),
{
    timestamp_from_bytes(s.as_bytes())
}

/// The range written as two offsets with a comma between them, both
/// durations or both clock readings. White space around an offset is
/// passed over.
///
/// Fails with `PartCount` unless there is exactly one comma, and else with
/// the error of the first offset that cannot be read. If either offset
/// holds a colon, both are read as clock readings.
pub fn parse_range(range_str: &str) -> (r: Result<TrimRange, RangeError>)
    ensures
        r == range_of(range_str.spec_bytes()),
{
    let text = range_str.as_bytes();
    let len = text.len();
    let comma = find_byte(text, COMMA, 0);
    if comma == len || find_byte(text, COMMA, comma + 1) != len {
        return Err(RangeError::PartCount);
    }
    let first = trim_bytes(slice_subrange(text, 0, comma));
    let second = trim_bytes(slice_subrange(text, comma + 1, len));
    range_from_parts(first, second)
}

} // verus!
