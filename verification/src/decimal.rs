//! Recognising decimal numbers.
//!
//! Coordinates are kept as the text that a document gives them in. This
//! module decides which texts are numbers, by the grammar that Rust's
//! floating point parser accepts:
//!
//! ```text
//! Float  ::= Sign? ( 'inf' | 'infinity' | 'nan' | Number )
//! Number ::= ( Digit+ | Digit+ '.' Digit* | Digit* '.' Digit+ ) Exp?
//! Exp    ::= ('e' | 'E') Sign? Digit+
//! Sign   ::= [+-]
//! Digit  ::= [0-9]
//! ```
//!
//! where the three words may be written in any mix of upper and lower case.

use vstd::prelude::*;

verus! {

/// Whether `byte` is an ASCII digit.
pub open spec fn is_digit(byte: u8) -> bool {
    0x30 <= byte <= 0x39
}

/// Whether `byte` is `+` or `-`.
pub open spec fn is_sign(byte: u8) -> bool {
    byte == 0x2b || byte == 0x2d
}

/// `byte` with an ASCII upper case letter turned into lower case.
pub open spec fn lower(byte: u8) -> u8 {
    if 0x41 <= byte <= 0x5a {
        (byte + 0x20) as u8
    } else {
        byte
    }
}

/// The number of digits that `text` holds in a row from the position `from`
/// on.
pub open spec fn digits_from(text: Seq<u8>, from: int) -> int
    decreases text.len() - from,
{
    if 0 <= from < text.len() && is_digit(text[from]) {
        1 + digits_from(text, from + 1)
    } else {
        0
    }
}

/// Whether `text` from the position `from` to its end is an exponent: `e`
/// or `E`, an optional sign, and one digit or more.
pub open spec fn is_exponent(text: Seq<u8>, from: int) -> bool {
    &&& 0 <= from < text.len()
    &&& lower(text[from]) == 0x65
    &&& {
        let digits = if from + 1 < text.len() && is_sign(text[from + 1]) {
            from + 2
        } else {
            from + 1
        };
        digits < text.len() && digits_from(text, digits) == text.len() - digits
    }
}

/// Whether `text` from the position `from` to its end is a number: digits
/// with at most one point among them and at least one digit, then an
/// optional exponent.
pub open spec fn is_number(text: Seq<u8>, from: int) -> bool {
    let whole = digits_from(text, from);
    let point = from + whole;
    let has_point = point < text.len() && text[point] == 0x2e;
    let fraction = if has_point {
        digits_from(text, point + 1)
    } else {
        0
    };
    let end = if has_point {
        point + 1 + fraction
    } else {
        point
    };
    &&& 0 <= from
    &&& whole + fraction > 0
    &&& end == text.len() || is_exponent(text, end)
}

/// Whether `text` from the position `from` to its end spells `word`,
/// whatever the case of its letters. `word` is in lower case.
pub open spec fn spells(text: Seq<u8>, from: int, word: Seq<u8>) -> bool {
    &&& 0 <= from
    &&& text.len() - from == word.len()
    &&& forall|i: int| 0 <= i < word.len() ==> lower(#[trigger] text[from + i]) == word[i]
}

/// The bytes of `inf`.
pub open spec fn word_inf() -> Seq<u8> {
    seq![0x69u8, 0x6eu8, 0x66u8]
}

/// The bytes of `infinity`.
pub open spec fn word_infinity() -> Seq<u8> {
    seq![0x69u8, 0x6eu8, 0x66u8, 0x69u8, 0x6eu8, 0x69u8, 0x74u8, 0x79u8]
}

/// The bytes of `nan`.
pub open spec fn word_nan() -> Seq<u8> {
    seq![0x6eu8, 0x61u8, 0x6eu8]
}

/// Whether `text` is a decimal number: an optional sign, then a number or
/// one of the words `inf`, `infinity` and `nan`.
pub open spec fn is_decimal(text: Seq<u8>) -> bool {
    let from: int = if text.len() > 0 && is_sign(text[0]) {
        1
    } else {
        0
    };
    &&& from < text.len()
    &&& {
        ||| is_number(text, from)
        ||| spells(text, from, word_inf())
        ||| spells(text, from, word_infinity())
        ||| spells(text, from, word_nan())
    }
}

/// The position behind the digits that `text` holds in a row from `from`
/// on.
fn skip_digits(text: &[u8], from: usize) -> (end: usize)
    requires
        from <= text.len(),
    ensures
        from <= end <= text.len(),
        end == from + digits_from(text@, from as int),
{
    let mut end = from;
    while end < text.len() && text[end] >= 0x30 && text[end] <= 0x39
        invariant
            from <= end <= text.len(),
            digits_from(text@, from as int) == (end - from) + digits_from(text@, end as int),
        decreases text.len() - end,
    {
        end += 1;
    }
    end
}

/// `byte` with an ASCII upper case letter turned into lower case.
fn to_lower(byte: u8) -> (r: u8)
    ensures
        r == lower(byte),
{
    if byte >= 0x41 && byte <= 0x5a {
        byte + 0x20
    } else {
        byte
    }
}

/// Whether `text` from `from` on spells `word`, whatever the case.
fn spells_word(text: &[u8], from: usize, word: &[u8]) -> (r: bool)
    requires
        from <= text.len(),
    ensures
        r == spells(text@, from as int, word@),
{
    if text.len() - from != word.len() {
        return false;
    }
    let mut i: usize = 0;
    while i < word.len()
        invariant
            i <= word.len(),
            from <= text.len(),
            text.len() - from == word.len(),
            forall|j: int| 0 <= j < i ==> lower(#[trigger] text@[from + j]) == word@[j],
        decreases word.len() - i,
    {
        if to_lower(text[from + i]) != word[i] {
            assert(lower(text@[from + i]) != word@[i as int]);
            return false;
        }
        i += 1;
    }
    true
}

/// Whether `text` from `from` on is an exponent.
fn exponent_at(text: &[u8], from: usize) -> (r: bool)
    requires
        from <= text.len(),
    ensures
        r == is_exponent(text@, from as int),
{
    if from >= text.len() || to_lower(text[from]) != 0x65 {
        return false;
    }
    let digits = if from + 1 < text.len() && (text[from + 1] == 0x2b || text[from + 1] == 0x2d) {
        from + 2
    } else {
        from + 1
    };
    if digits >= text.len() {
        return false;
    }
    skip_digits(text, digits) == text.len()
}

/// Whether `text` from `from` on is a number.
fn number_at(text: &[u8], from: usize) -> (r: bool)
    requires
        from <= text.len(),
    ensures
        r == is_number(text@, from as int),
{
    let point = skip_digits(text, from);
    let has_point = point < text.len() && text[point] == 0x2e;
    let end = if has_point {
        skip_digits(text, point + 1)
    } else {
        point
    };
    let digits = if has_point {
        (point - from) + (end - point - 1)
    } else {
        point - from
    };
    digits > 0 && (end == text.len() || exponent_at(text, end))
}

/// Whether `text` is a decimal number.
pub fn is_decimal_text(text: &[u8]) -> (r: bool)
    ensures
        r == is_decimal(text@),
{
    let from: usize = if text.len() > 0 && (text[0] == 0x2b || text[0] == 0x2d) {
        1
    } else {
        0
    };
    if from >= text.len() {
        return false;
    }
    if number_at(text, from) {
        return true;
    }
    let inf: [u8; 3] = [0x69, 0x6e, 0x66];
    let infinity: [u8; 8] = [0x69, 0x6e, 0x66, 0x69, 0x6e, 0x69, 0x74, 0x79];
    let nan: [u8; 3] = [0x6e, 0x61, 0x6e];
    assert(inf@ =~= word_inf());
    assert(infinity@ =~= word_infinity());
    assert(nan@ =~= word_nan());
    spells_word(text, from, inf.as_slice()) || spells_word(text, from, infinity.as_slice())
        || spells_word(text, from, nan.as_slice())
}

} // verus!
