//! The processing operations and the tokens that name them.
//!
//! A token is a name, or a name, a colon and a value. Names are matched
//! without regard to the case of their letters:
//!
//! * `c2s` crops to the subject and takes no value;
//! * `contrast:<number>` adjusts the contrast;
//! * `brightness:<number>` adjusts the brightness.
//!
//! A number is written in decimal notation: an optional sign, digits, and
//! optionally a point and more digits. Digits must stand on at least one
//! side of the point. The digits behind the point do not count: the
//! operations take whole numbers.

use vstd::prelude::*;
use crate::errors::ConfigError;
use crate::tone::{brightness_in_range, contrast_in_range, MAX_BRIGHTNESS, MAX_CONTRAST};

verus! {

/// One step of the processing pipeline.
#[derive(Clone, Copy, Debug, PartialEq, Eq, Structural)]
pub enum ProcOp {
    /// Crop to the subject; keep the image where none is found.
    Crop2Subject,
    /// Adjust the contrast by the given amount.
    Contrast(i32),
    /// Adjust the brightness by the given amount.
    Brightness(i32),
}

impl ProcOp {
    /// The amount of the operation is within its range.
    pub open spec fn wf(&self) -> bool {
        match self {
            ProcOp::Crop2Subject => true,
            ProcOp::Contrast(c) => contrast_in_range(*c as int),
            ProcOp::Brightness(b) => brightness_in_range(*b as int),
        }
    }

    /// Tells whether the amount of the operation is within its range.
    pub fn is_valid(&self) -> (ok: bool)
        ensures
            ok == self.wf(),
    {
        match self {
            ProcOp::Crop2Subject => true,
            ProcOp::Contrast(c) => -MAX_CONTRAST <= *c && *c <= MAX_CONTRAST,
            ProcOp::Brightness(b) => -MAX_BRIGHTNESS <= *b && *b <= MAX_BRIGHTNESS,
        }
    }
}

/// The character `c` is the character `k` of a name, or the capital letter
/// of which `k` is the small one.
pub open spec fn same_letter(c: char, k: char) -> bool {
    c == k || (0x41 <= c as u32 <= 0x5a && c as u32 + 32 == k as u32)
}

/// The text is the name, but for the case of its letters.
pub open spec fn is_name(text: Seq<char>, name: Seq<char>) -> bool {
    &&& text.len() == name.len()
    &&& forall|i: int| 0 <= i < text.len() ==> same_letter(#[trigger] text[i], name[i])
}

/// The character is a decimal digit.
pub open spec fn is_digit(c: char) -> bool {
    0x30 <= c as u32 <= 0x39
}

/// Every character of the text is a decimal digit.
pub open spec fn all_digits(text: Seq<char>) -> bool {
    forall|i: int| 0 <= i < text.len() ==> is_digit(#[trigger] text[i])
}

/// The number that a text of decimal digits denotes; 0 for the empty text.
pub open spec fn decimal_value(digits: Seq<char>) -> nat
    decreases digits.len(),
{
    if digits.len() == 0 {
        0
    } else {
        (decimal_value(digits.drop_last()) * 10 + (digits.last() as u32 - 0x30)) as nat
    }
}

/// The position of the first occurrence of `c` in the text; the length of
/// the text if there is none.
pub open spec fn first_index_of(text: Seq<char>, c: char) -> int
    decreases text.len(),
{
    if text.len() == 0 {
        0
    } else if text[0] == c {
        0
    } else {
        1 + first_index_of(text.drop_first(), c)
    }
}

/// The text has a sign in front.
pub open spec fn is_signed(text: Seq<char>) -> bool {
    text.len() > 0 && (text[0] == '-' || text[0] == '+')
}

/// The text without its sign.
pub open spec fn unsigned_part(text: Seq<char>) -> Seq<char> {
    if is_signed(text) {
        text.skip(1)
    } else {
        text
    }
}

/// The digits in front of the point.
pub open spec fn whole_part(text: Seq<char>) -> Seq<char> {
    let body = unsigned_part(text);
    body.take(first_index_of(body, '.'))
}

/// What stands behind the point; empty if there is no point.
pub open spec fn fraction_part(text: Seq<char>) -> Seq<char> {
    let body = unsigned_part(text);
    let dot = first_index_of(body, '.');
    if dot < body.len() {
        body.skip(dot + 1)
    } else {
        Seq::empty()
    }
}

/// The text is a number in decimal notation.
pub open spec fn is_number(text: Seq<char>) -> bool {
    &&& all_digits(whole_part(text))
    &&& all_digits(fraction_part(text))
    &&& whole_part(text).len() + fraction_part(text).len() > 0
}

/// The whole number that a number in decimal notation denotes once its
/// fraction is dropped.
pub open spec fn number_value(text: Seq<char>) -> int {
    if text.len() > 0 && text[0] == '-' {
        -(decimal_value(whole_part(text)) as int)
    } else {
        decimal_value(whole_part(text)) as int
    }
}

/// The name of a token: what stands before its first colon.
pub open spec fn token_name(token: Seq<char>) -> Seq<char> {
    token.take(first_index_of(token, ':'))
}

/// The token has a colon, and so a value.
pub open spec fn has_value(token: Seq<char>) -> bool {
    first_index_of(token, ':') < token.len()
}

/// The value of a token: what stands behind its first colon.
pub open spec fn token_value(token: Seq<char>) -> Seq<char> {
    token.skip(first_index_of(token, ':') + 1)
}

/// The amount that a value denotes for an operation that takes amounts
/// from `-limit` to `limit`.
pub open spec fn parse_amount(token: Seq<char>, limit: int) -> Result<int, ConfigError> {
    if !has_value(token) || !is_number(token_value(token)) {
        Err(ConfigError::InvalidValue)
    } else if -limit <= number_value(token_value(token)) <= limit {
        Ok(number_value(token_value(token)))
    } else {
        Err(ConfigError::OutOfRange)
    }
}

/// The operation that a token names, or why it names none.
pub open spec fn parse_token(token: Seq<char>) -> Result<ProcOp, ConfigError> {
    if is_name(token_name(token), "c2s"@) && !has_value(token) {
        Ok(ProcOp::Crop2Subject)
    } else if is_name(token_name(token), "contrast"@) {
        match parse_amount(token, MAX_CONTRAST as int) {
            Ok(v) => Ok(ProcOp::Contrast(v as i32)),
            Err(e) => Err(e),
        }
    } else if is_name(token_name(token), "brightness"@) {
        match parse_amount(token, MAX_BRIGHTNESS as int) {
            Ok(v) => Ok(ProcOp::Brightness(v as i32)),
            Err(e) => Err(e),
        }
    } else {
        Err(ConfigError::UnknownOperation)
    }
}

/// The characters of a text.
fn chars_of(text: &str) -> (chars: Vec<char>)
    ensures
        chars@ == text@,
{
    let n = text.unicode_len();
    let mut chars: Vec<char> = Vec::new();
    let mut i: usize = 0;
    while i < n
        invariant
            i <= n,
            n == text@.len(),
            chars@ == text@.take(i as int),
        decreases n - i,
    {
        chars.push(text.get_char(i));
        assert(chars@ =~= text@.take(i + 1));
        i = i + 1;
    }
    assert(text@.take(n as int) =~= text@);
    chars
}

/// The position of the first `c` in `text[from..]`, counted from `from`.
fn find_from(text: &Vec<char>, from: usize, c: char) -> (at: usize)
    requires
        from <= text.len(),
    ensures
        at == first_index_of(text@.skip(from as int), c),
        at <= text.len() - from,
{
    let mut i: usize = from;
    while i < text.len()
        invariant
            from <= i <= text.len(),
            first_index_of(text@.skip(from as int), c) == (i - from) + first_index_of(
                text@.skip(i as int),
                c,
            ),
        decreases text.len() - i,
    {
        assert(text@.skip(i as int)[0] == text@[i as int]);
        if text[i] == c {
            return i - from;
        }
        assert(text@.skip(i as int).drop_first() =~= text@.skip(i + 1));
        i = i + 1;
    }
    i - from
}

/// Tells whether `text[from..to]` is the name, but for the case of its
/// letters.
fn name_matches(text: &Vec<char>, to: usize, name: &str) -> (same: bool)
    requires
        to <= text.len(),
    ensures
        same == is_name(text@.take(to as int), name@),
{
    let n = name.unicode_len();
    if n != to {
        return false;
    }
    let mut i: usize = 0;
    while i < to
        invariant
            i <= to,
            to <= text.len(),
            to == name@.len(),
            forall|j: int|
                0 <= j < i ==> same_letter(#[trigger] text@.take(to as int)[j], name@[j]),
        decreases to - i,
    {
        let c = text[i];
        let k = name.get_char(i);
        let cu: u32 = c as u32;
        let same = c == k || (0x41 <= cu && cu <= 0x5a && cu + 32 == k as u32);
        assert(text@.take(to as int)[i as int] == c);
        if !same {
            return false;
        }
        i = i + 1;
    }
    true
}

/// The largest amount that is still told apart from larger ones.
const AMOUNT_CAP: u32 = 1_000_000;

/// Reads the digits `text[from..to]`. Gives their value, or the cap if the
/// value is above it; nothing if one of them is no digit.
fn read_digits(text: &Vec<char>, from: usize, to: usize) -> (res: Option<u32>)
    requires
        from <= to <= text.len(),
    ensures
        res is Some <==> all_digits(text@.subrange(from as int, to as int)),
        res matches Some(v) ==> {
            let value = decimal_value(text@.subrange(from as int, to as int));
            v == if value < AMOUNT_CAP { value } else { AMOUNT_CAP as nat }
        },
{
    let mut acc: u32 = 0;
    let mut i: usize = from;
    while i < to
        invariant
            from <= i <= to <= text.len(),
            all_digits(text@.subrange(from as int, i as int)),
            acc <= AMOUNT_CAP,
            ({
                let value = decimal_value(text@.subrange(from as int, i as int));
                acc == if value < AMOUNT_CAP { value } else { AMOUNT_CAP as nat }
            }),
        decreases to - i,
    {
        let c = text[i];
        let cu: u32 = c as u32;
        let ghost next = text@.subrange(from as int, i + 1);
        proof {
            assert(next.drop_last() =~= text@.subrange(from as int, i as int));
            assert(next.last() == c);
        }
        if !(0x30 <= cu && cu <= 0x39) {
            proof {
                let whole = text@.subrange(from as int, to as int);
                assert(whole[i - from] == c);
                assert(!is_digit(whole[i - from]));
            }
            return None;
        }
        let grown: u32 = acc * 10 + (cu - 0x30);
        acc = if grown < AMOUNT_CAP { grown } else { AMOUNT_CAP };
        proof {
            assert forall|j: int| 0 <= j < next.len() implies is_digit(#[trigger] next[j]) by {
                if j < next.len() - 1 {
                    assert(next[j] == text@.subrange(from as int, i as int)[j]);
                }
            }
        }
        i = i + 1;
    }
    Some(acc)
}

/// Reads the amount `text[from..]` of an operation that takes amounts from
/// `-limit` to `limit`.
fn read_amount(text: &Vec<char>, colon: usize, limit: i32) -> (res: Result<i32, ConfigError>)
    requires
        colon == first_index_of(text@, ':'),
        colon <= text.len(),
        0 <= limit < AMOUNT_CAP,
    ensures
        match (res, parse_amount(text@, limit as int)) {
            (Ok(v), Ok(w)) => v == w,
            (Err(e), Err(f)) => e == f,
            _ => false,
        },
{
    if colon >= text.len() {
        return Err(ConfigError::InvalidValue);
    }
    let start: usize = colon + 1;
    let ghost value = token_value(text@);
    let ghost body = unsigned_part(value);
    assert(value == text@.skip(start as int));
    let signed = start < text.len() && (text[start] == '-' || text[start] == '+');
    let negative = start < text.len() && text[start] == '-';
    let first: usize = if signed { start + 1 } else { start };
    proof {
        if start < text.len() {
            assert(value[0] == text@[start as int]);
        }
        assert(body =~= text@.skip(first as int));
    }
    let dot: usize = first + find_from(text, first, '.');
    let end: usize = text.len();
    proof {
        assert(whole_part(value) =~= text@.subrange(first as int, dot as int));
        if dot < end {
            assert(fraction_part(value) =~= text@.subrange(dot + 1, end as int));
        } else {
            assert(fraction_part(value) =~= text@.subrange(end as int, end as int));
        }
    }
    let whole = read_digits(text, first, dot);
    let fraction = if dot < end { read_digits(text, dot + 1, end) } else {
        read_digits(text, end, end)
    };
    let digits: usize = (dot - first) + (if dot < end { end - dot - 1 } else { 0 });
    match (whole, fraction) {
        (Some(v), Some(_)) => {
            if digits == 0 {
                return Err(ConfigError::InvalidValue);
            }
            if v > limit as u32 {
                return Err(ConfigError::OutOfRange);
            }
            if negative {
                Ok(-(v as i32))
            } else {
                Ok(v as i32)
            }
        },
        _ => Err(ConfigError::InvalidValue),
    }
}

/// Reads one token of the list of processing operations.
///
/// The token is refused as unknown if its name is none of the three, or is
/// `c2s` with a value; as invalid if a value is missing or no number; and
/// as out of range if the number, without its fraction, is not an amount
/// that the operation takes.
pub fn parse_proc_op(param_str: &str) -> (res: Result<ProcOp, ConfigError>)
    ensures
        res == parse_token(param_str@),
        res matches Ok(op) ==> op.wf(),
{
    let text = chars_of(param_str);
    let colon = find_from(&text, 0, ':');
    assert(text@.skip(0) =~= text@);
    if name_matches(&text, colon, "c2s") && colon == text.len() {
        Ok(ProcOp::Crop2Subject)
    } else if name_matches(&text, colon, "contrast") {
        match read_amount(&text, colon, MAX_CONTRAST) {
            Ok(v) => Ok(ProcOp::Contrast(v)),
            Err(e) => Err(e),
        }
    } else if name_matches(&text, colon, "brightness") {
        match read_amount(&text, colon, MAX_BRIGHTNESS) {
            Ok(v) => Ok(ProcOp::Brightness(v)),
            Err(e) => Err(e),
        }
    } else {
        Err(ConfigError::UnknownOperation)
    }
}

} // verus!
