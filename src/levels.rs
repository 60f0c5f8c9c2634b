//! Parsing a level specification such as `1:2`.

use vstd::prelude::*;
use vstd::string::StringSliceAdditionalSpecFns;

use crate::bytes::byte_views;

verus! {

/// Why a level specification was rejected.
#[derive(Debug, Clone, Copy, PartialEq, Eq, Structural)]
pub enum LevelsError {
    /// More than three colon-separated parts.
    TooManyLevels,
    /// A part is not a non-negative integer that fits in `usize`.
    NotAnInteger,
    /// A part is an integer other than 1 or 2.
    OutOfRange,
}

/// ASCII `:`, between the parts of a level specification.
pub const COLON: u8 = 0x3a;
/// ASCII `+`, allowed before the digits of a level.
pub const PLUS: u8 = 0x2b;
/// ASCII `0`.
pub const DIGIT_ZERO: u8 = 0x30;
/// ASCII `9`.
pub const DIGIT_NINE: u8 = 0x39;

/// The most levels a specification may have.
pub const MAX_LEVELS: usize = 3;

/// The parts of `s` between colons, as `str::split(':')` gives them: always at
/// least one, possibly empty, part.
pub open spec fn split_colon(s: Seq<u8>) -> Seq<Seq<u8>>
    decreases s.len(),
{
    if s.len() == 0 {
        seq![Seq::<u8>::empty()]
    } else {
        let parts = split_colon(s.drop_last());
        if s.last() == COLON {
            parts.push(Seq::<u8>::empty())
        } else {
            parts.update(parts.len() - 1, parts.last().push(s.last()))
        }
    }
}

pub open spec fn is_digit(b: u8) -> bool {
    DIGIT_ZERO <= b <= DIGIT_NINE
}

/// The digits of a part once an optional leading `+` is dropped.
pub open spec fn unsigned_digits(part: Seq<u8>) -> Seq<u8> {
    if part.len() > 0 && part[0] == PLUS {
        part.drop_first()
    } else {
        part
    }
}

pub open spec fn decimal_value(digits: Seq<u8>) -> nat
    decreases digits.len(),
{
    if digits.len() == 0 {
        0
    } else {
        decimal_value(digits.drop_last()) * 10 + (digits.last() - DIGIT_ZERO) as nat
    }
}

/// Whether `part` reads as a `usize` in decimal, as `str::parse::<usize>`
/// accepts it: an optional `+`, then one or more digits, of a value that fits.
pub open spec fn is_usize_text(part: Seq<u8>) -> bool {
    let digits = unsigned_digits(part);
    &&& digits.len() > 0
    &&& forall|i: int| 0 <= i < digits.len() ==> is_digit(#[trigger] digits[i])
    &&& decimal_value(digits) <= usize::MAX
}

/// The level that one part stands for, or why it stands for none.
pub open spec fn level_of(part: Seq<u8>) -> Result<usize, LevelsError> {
    if !is_usize_text(part) {
        Err(LevelsError::NotAnInteger)
    } else if 1 <= decimal_value(unsigned_digits(part)) <= 2 {
        Ok(decimal_value(unsigned_digits(part)) as usize)
    } else {
        Err(LevelsError::OutOfRange)
    }
}

/// The levels of `parts` in order; the error is that of the first bad part.
pub open spec fn levels_of_parts(parts: Seq<Seq<u8>>) -> Result<Seq<usize>, LevelsError>
    decreases parts.len(),
{
    if parts.len() == 0 {
        Ok(Seq::<usize>::empty())
    } else {
        match levels_of_parts(parts.drop_last()) {
            Err(e) => Err(e),
            Ok(levels) => match level_of(parts.last()) {
                Err(e) => Err(e),
                Ok(level) => Ok(levels.push(level)),
            },
        }
    }
}

/// What a level specification (its bytes) means.
pub open spec fn levels_spec(s: Seq<u8>) -> Result<Seq<usize>, LevelsError> {
    let parts = split_colon(s);
    if parts.len() > MAX_LEVELS {
        Err(LevelsError::TooManyLevels)
    } else {
        levels_of_parts(parts)
    }
}

/// A well-formed list of levels: one to three values, each 1 or 2.
pub open spec fn valid_levels(levels: Seq<usize>) -> bool {
    &&& 1 <= levels.len() <= MAX_LEVELS
    &&& forall|i: int| 0 <= i < levels.len() ==> 1 <= #[trigger] levels[i] <= 2
}

proof fn lemma_split_colon_nonempty(s: Seq<u8>)
    ensures
        split_colon(s).len() >= 1,
    decreases s.len(),
{
    if s.len() > 0 {
        lemma_split_colon_nonempty(s.drop_last());
    }
}

proof fn lemma_levels_of_parts_error_stays(parts: Seq<Seq<u8>>, n: int)
    requires
        0 <= n <= parts.len(),
        levels_of_parts(parts.take(n)) is Err,
    ensures
        levels_of_parts(parts) == levels_of_parts(parts.take(n)),
    decreases parts.len() - n,
{
    if n < parts.len() {
        assert(parts.take(n + 1).drop_last() =~= parts.take(n));
        lemma_levels_of_parts_error_stays(parts, n + 1);
    } else {
        assert(parts.take(n) =~= parts);
    }
}

proof fn lemma_levels_of_parts_valid(parts: Seq<Seq<u8>>)
    ensures
        levels_of_parts(parts) matches Ok(levels) ==> levels.len() == parts.len() && forall|i: int|
            0 <= i < levels.len() ==> 1 <= #[trigger] levels[i] <= 2,
    decreases parts.len(),
{
    if parts.len() > 0 {
        lemma_levels_of_parts_valid(parts.drop_last());
    }
}

/// Splits a level specification at its colons, refusing more than three parts.
pub fn parse_levels_stage_1(levels: &str) -> (r: Result<Vec<Vec<u8>>, LevelsError>)
    ensures
        split_colon(levels.spec_bytes()).len() > MAX_LEVELS <==> r == Err::<Vec<Vec<u8>>, LevelsError>(
            LevelsError::TooManyLevels,
        ),
        r matches Ok(parts) ==> byte_views(parts@) == split_colon(levels.spec_bytes()),
        r is Ok || r == Err::<Vec<Vec<u8>>, LevelsError>(LevelsError::TooManyLevels),
{
    let bytes = levels.as_bytes();
    let mut parts: Vec<Vec<u8>> = Vec::new();
    let mut current: Vec<u8> = Vec::new();
    let mut i: usize = 0;
    while i < bytes.len()
        invariant
            i <= bytes@.len(),
            bytes@ == levels.spec_bytes(),
            split_colon(bytes@.take(i as int)) == byte_views(parts@).push(current@),
        decreases bytes@.len() - i,
    {
        let b = bytes[i];
        assert(bytes@.take(i as int + 1).drop_last() =~= bytes@.take(i as int));
        if b == COLON {
            let done = current;
            parts.push(done);
            current = Vec::new();
            assert(byte_views(parts@) =~= split_colon(bytes@.take(i as int)).drop_last().push(done@));
        } else {
            current.push(b);
        }
        i = i + 1;
        assert(split_colon(bytes@.take(i as int)) =~= byte_views(parts@).push(current@));
    }
    assert(bytes@.take(i as int) =~= bytes@);
    parts.push(current);
    assert(byte_views(parts@) =~= split_colon(bytes@));
    if parts.len() > MAX_LEVELS {
        Err(LevelsError::TooManyLevels)
    } else {
        Ok(parts)
    }
}

proof fn lemma_decimal_value_step(digits: Seq<u8>, n: int)
    requires
        0 <= n < digits.len(),
    ensures
        decimal_value(digits.take(n + 1)) == decimal_value(digits.take(n)) * 10 + (digits[n]
            - DIGIT_ZERO) as nat,
{
    assert(digits.take(n + 1).drop_last() =~= digits.take(n));
}

proof fn lemma_decimal_value_grows(digits: Seq<u8>, n: int)
    requires
        0 <= n <= digits.len(),
        forall|i: int| 0 <= i < digits.len() ==> is_digit(#[trigger] digits[i]),
    ensures
        decimal_value(digits.take(n)) <= decimal_value(digits),
    decreases digits.len() - n,
{
    if n < digits.len() {
        lemma_decimal_value_step(digits, n);
        lemma_decimal_value_grows(digits, n + 1);
    } else {
        assert(digits.take(n) =~= digits);
    }
}

/// Reads one part of a level specification as a level.
fn parse_level(part: &Vec<u8>) -> (r: Result<usize, LevelsError>)
    ensures
        r == level_of(part@),
{
    let start: usize = if part.len() > 0 && part[0] == PLUS {
        1
    } else {
        0
    };
    let ghost digits = unsigned_digits(part@);
    assert(digits =~= part@.skip(start as int));
    if start >= part.len() {
        return Err(LevelsError::NotAnInteger);
    }
    let mut value: usize = 0;
    let mut i: usize = start;
    while i < part.len()
        invariant
            start <= i <= part@.len(),
            digits =~= part@.skip(start as int),
            digits == unsigned_digits(part@),
            forall|k: int| 0 <= k < i - start ==> is_digit(#[trigger] digits[k]),
            value == decimal_value(digits.take(i - start)),
        decreases part@.len() - i,
    {
        let b = part[i];
        if b < DIGIT_ZERO || b > DIGIT_NINE {
            assert(!is_digit(digits[i - start]));
            return Err(LevelsError::NotAnInteger);
        }
        proof {
            lemma_decimal_value_step(digits, i - start);
        }
        let digit = (b - DIGIT_ZERO) as usize;
        let scaled = value.checked_mul(10);
        match scaled {
            None => {
                proof {
                    lemma_not_usize_beyond(digits, i - start + 1);
                }
                return Err(LevelsError::NotAnInteger);
            },
            Some(scaled) => match scaled.checked_add(digit) {
                None => {
                    proof {
                        lemma_not_usize_beyond(digits, i - start + 1);
                    }
                    return Err(LevelsError::NotAnInteger);
                },
                Some(next) => {
                    value = next;
                },
            },
        }
        i = i + 1;
    }
    assert(digits.take(i - start) =~= digits);
    if 1 <= value && value <= 2 {
        Ok(value)
    } else {
        Err(LevelsError::OutOfRange)
    }
}

/// A part whose first `n` digits already exceed `usize::MAX` does not read
/// as a `usize`.
proof fn lemma_not_usize_beyond(digits: Seq<u8>, n: int)
    requires
        0 < n <= digits.len(),
        decimal_value(digits.take(n)) > usize::MAX,
    ensures
        !(forall|i: int| 0 <= i < digits.len() ==> is_digit(#[trigger] digits[i])) || decimal_value(
            digits,
        ) > usize::MAX,
{
    if forall|i: int| 0 <= i < digits.len() ==> is_digit(#[trigger] digits[i]) {
        lemma_decimal_value_grows(digits, n);
    }
}

/// Parses a level specification: one to three colon-separated levels, each
/// 1 or 2, read as `usize` in decimal.
pub fn parse_levels(levels: &str) -> (r: Result<Vec<usize>, LevelsError>)
    ensures
        r matches Ok(v) ==> levels_spec(levels.spec_bytes()) == Ok::<Seq<usize>, LevelsError>(v@),
        r matches Err(e) ==> levels_spec(levels.spec_bytes()) == Err::<Seq<usize>, LevelsError>(e),
        r matches Ok(v) ==> valid_levels(v@),
{
    let parts = parse_levels_stage_1(levels)?;
    let ghost views = byte_views(parts@);
    let mut values: Vec<usize> = Vec::new();
    let mut i: usize = 0;
    while i < parts.len()
        invariant
            i <= parts@.len(),
            views == byte_views(parts@),
            views == split_colon(levels.spec_bytes()),
            parts@.len() <= MAX_LEVELS,
            levels_of_parts(views.take(i as int)) == Ok::<Seq<usize>, LevelsError>(values@),
        decreases parts@.len() - i,
    {
        assert(views.take(i as int + 1).drop_last() =~= views.take(i as int));
        assert(views.take(i as int + 1).last() == parts@[i as int]@);
        match parse_level(&parts[i]) {
            Err(e) => {
                proof {
                    lemma_levels_of_parts_error_stays(views, i as int + 1);
                }
                return Err(e);
            },
            Ok(level) => {
                values.push(level);
            },
        }
        i = i + 1;
    }
    assert(views.take(i as int) =~= views);
    proof {
        lemma_levels_of_parts_valid(views);
        lemma_split_colon_nonempty(levels.spec_bytes());
    }
    Ok(values)
}

} // verus!
