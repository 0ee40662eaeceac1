//! Unsigned numbers as text.
//!
//! A number is written as an optional `+` followed by digits of some radix,
//! with nothing before, between or after them. The digits are `0` to `9` and
//! then the letters, in either case, as far as the radix reaches; beyond 36
//! there are no more. Reading stops at the first character that is no digit, or
//! at the first digit that carries the value over the limit, whichever comes
//! first; that decides which error is reported.
//!
//! For a radix from 2 to 36 these are the texts that the unsigned integer
//! types of the standard library read with `from_str_radix`, and the three
//! errors are the three it reports of them.

use vstd::prelude::*;
use vstd::slice::slice_subrange;

verus! {

/// Why a text is not a number within the limit.
#[derive(Debug, Clone, Copy, PartialEq, Eq, Structural)]
pub enum ParseError {
    /// The text is empty.
    Empty,
    /// A character is no digit of the radix, or the text is a lone sign.
    InvalidDigit,
    /// The digits read so far already exceed the limit.
    Overflow,
}

impl ParseError {
    /// What to tell the user.
    pub fn message(&self) -> (text: &'static str)
        ensures
            *self == ParseError::Empty ==> text@ == "cannot parse integer from empty string"@,
            *self == ParseError::InvalidDigit ==> text@ == "invalid digit found in string"@,
            *self == ParseError::Overflow ==> text@ == "number too large to fit in target type"@,
    {
        match self {
            ParseError::Empty => "cannot parse integer from empty string",
            ParseError::InvalidDigit => "invalid digit found in string",
            ParseError::Overflow => "number too large to fit in target type",
        }
    }
}

/// The value of `c` as a digit of `radix`, if it is one.
pub open spec fn digit_of(c: char, radix: int) -> Option<int> {
    let code = c as int;
    let value = if '0' as int <= code <= '9' as int {
        code - '0' as int
    } else if 'a' as int <= code <= 'z' as int {
        code - 'a' as int + 10
    } else if 'A' as int <= code <= 'Z' as int {
        code - 'A' as int + 10
    } else {
        radix
    };
    if value < radix {
        Some(value)
    } else {
        None
    }
}

/// The number that `digits` write in `radix`, the first digit weighing most.
/// A character that is no digit counts as zero.
pub open spec fn digits_value(digits: Seq<char>, radix: int) -> int
    decreases digits.len(),
{
    if digits.len() == 0 {
        0
    } else {
        digits_value(digits.drop_last(), radix) * radix + match digit_of(digits.last(), radix) {
            Some(d) => d,
            None => 0,
        }
    }
}

/// How many characters at the start of `text` are digits of `radix`.
pub open spec fn digit_run(text: Seq<char>, radix: int) -> int
    decreases text.len(),
{
    if text.len() == 0 || digit_of(text[0], radix) is None {
        0
    } else {
        1 + digit_run(text.drop_first(), radix)
    }
}

/// The number that `text` writes in `radix` without a sign, up to `limit`.
pub open spec fn unsigned_of(text: Seq<char>, radix: int, limit: int) -> Result<int, ParseError> {
    let run = text.take(digit_run(text, radix));
    if digits_value(run, radix) > limit {
        Err(ParseError::Overflow)
    } else if run.len() < text.len() {
        Err(ParseError::InvalidDigit)
    } else {
        Ok(digits_value(run, radix))
    }
}

/// The number that `text` writes in `radix`, up to `limit`: digits, with one
/// `+` allowed in front of them.
pub open spec fn number_of(text: Seq<char>, radix: int, limit: int) -> Result<int, ParseError> {
    if text.len() == 0 {
        Err(ParseError::Empty)
    } else if text[0] == '+' {
        if text.len() == 1 {
            Err(ParseError::InvalidDigit)
        } else {
            unsigned_of(text.drop_first(), radix, limit)
        }
    } else {
        unsigned_of(text, radix, limit)
    }
}

/// The run of digits at the start of a text is as long as the digits reach.
proof fn lemma_digit_run_ends(text: Seq<char>, radix: int, end: int)
    requires
        0 <= end <= text.len(),
        forall|i: int| 0 <= i < end ==> digit_of(text[i], radix) is Some,
        end == text.len() || digit_of(text[end], radix) is None,
    ensures
        digit_run(text, radix) == end,
    decreases end,
{
    if end > 0 {
        lemma_digit_run_ends(text.drop_first(), radix, end - 1);
    }
}

/// The run of digits at the start of a text covers every leading digit.
proof fn lemma_digit_run_covers(text: Seq<char>, radix: int, upto: int)
    requires
        0 <= upto <= text.len(),
        forall|i: int| 0 <= i < upto ==> digit_of(text[i], radix) is Some,
    ensures
        upto <= digit_run(text, radix) <= text.len(),
    decreases text.len(),
{
    if text.len() > 0 && digit_of(text[0], radix) is Some {
        let covered = if upto > 0 {
            upto - 1
        } else {
            0
        };
        lemma_digit_run_covers(text.drop_first(), radix, covered);
    }
}

/// More digits never write a smaller number.
proof fn lemma_value_grows(text: Seq<char>, radix: int, shorter: int, longer: int)
    requires
        radix >= 1,
        0 <= shorter <= longer <= text.len(),
    ensures
        0 <= digits_value(text.take(shorter), radix) <= digits_value(text.take(longer), radix),
    decreases longer,
{
    if longer > 0 {
        let whole = text.take(longer);
        assert(whole.drop_last() =~= text.take(longer - 1));
        lemma_value_grows(text, radix, 0, longer - 1);
        let before = digits_value(text.take(longer - 1), radix);
        assert(before * radix >= before) by (nonlinear_arith)
            requires
                before >= 0,
                radix >= 1,
        ;
        if shorter < longer {
            lemma_value_grows(text, radix, shorter, longer - 1);
        }
    }
}

/// Reads one digit.
pub fn to_digit(c: char, radix: u32) -> (digit: Option<u32>)
    ensures
        match digit_of(c, radix as int) {
            Some(d) => digit == Some(d as u32),
            None => digit is None,
        },
{
    let code: u32 = c as u32;
    let value: u32 = if '0' as u32 <= code && code <= '9' as u32 {
        code - '0' as u32
    } else if 'a' as u32 <= code && code <= 'z' as u32 {
        code - 'a' as u32 + 10
    } else if 'A' as u32 <= code && code <= 'Z' as u32 {
        code - 'A' as u32 + 10
    } else {
        radix
    };
    if value < radix {
        Some(value)
    } else {
        None
    }
}

/// Reads a number without a sign.
fn parse_unsigned(text: &[char], radix: u32, limit: u32) -> (number: Result<u32, ParseError>)
    ensures
        match unsigned_of(text@, radix as int, limit as int) {
            Ok(n) => number == Ok::<u32, ParseError>(n as u32) && 0 <= n <= limit,
            Err(e) => number == Err::<u32, ParseError>(e),
        },
{
    let mut value: u64 = 0;
    let mut i: usize = 0;
    while i < text.len()
        invariant
            i <= text@.len(),
            forall|j: int| 0 <= j < i ==> digit_of(text@[j], radix as int) is Some,
            value == digits_value(text@.take(i as int), radix as int),
            value <= limit,
        decreases text@.len() - i,
    {
        let ghost longer = text@.take(i + 1);
        assert(longer.drop_last() =~= text@.take(i as int));
        match to_digit(text[i], radix) {
            None => {
                proof {
                    lemma_digit_run_ends(text@, radix as int, i as int);
                }
                return Err(ParseError::InvalidDigit);
            },
            Some(d) => {
                assert(value * radix <= 0xFFFF_FFFF * 0xFFFF_FFFF) by (nonlinear_arith)
                    requires
                        value <= 0xFFFF_FFFF,
                        radix <= 0xFFFF_FFFF,
                ;
                let next: u64 = value * (radix as u64) + (d as u64);
                if next > limit as u64 {
                    proof {
                        lemma_digit_run_covers(text@, radix as int, i + 1);
                        lemma_value_grows(
                            text@,
                            radix as int,
                            i + 1,
                            digit_run(text@, radix as int),
                        );
                    }
                    return Err(ParseError::Overflow);
                }
                value = next;
            },
        }
        i += 1;
    }
    proof {
        lemma_digit_run_ends(text@, radix as int, i as int);
    }
    Ok(value as u32)
}

/// Reads the number that `text` writes in `radix`, up to `limit`.
pub fn parse_number(text: &[char], radix: u32, limit: u32) -> (number: Result<u32, ParseError>)
    ensures
        match number_of(text@, radix as int, limit as int) {
            Ok(n) => number == Ok::<u32, ParseError>(n as u32) && 0 <= n <= limit,
            Err(e) => number == Err::<u32, ParseError>(e),
        },
{
    if text.len() == 0 {
        Err(ParseError::Empty)
    } else if text[0] == '+' {
        if text.len() == 1 {
            Err(ParseError::InvalidDigit)
        } else {
            let digits = slice_subrange(text, 1, text.len());
            parse_unsigned(digits, radix, limit)
        }
    } else {
        parse_unsigned(text, radix, limit)
    }
}

/// The character that writes the digit `d`, from `0` to `9`.
pub open spec fn digit_char(d: int) -> char {
    if d == 0 {
        '0'
    } else if d == 1 {
        '1'
    } else if d == 2 {
        '2'
    } else if d == 3 {
        '3'
    } else if d == 4 {
        '4'
    } else if d == 5 {
        '5'
    } else if d == 6 {
        '6'
    } else if d == 7 {
        '7'
    } else if d == 8 {
        '8'
    } else {
        '9'
    }
}

/// The decimal digits of `n`, without a sign and without leading zeros.
pub open spec fn decimal(n: nat) -> Seq<char>
    decreases n,
{
    if n < 10 {
        seq![digit_char(n as int)]
    } else {
        decimal(n / 10).push(digit_char((n % 10) as int))
    }
}

/// The text of one decimal digit.
fn digit_text(d: u32) -> (text: &'static str)
    requires
        d < 10,
    ensures
        text@ == seq![digit_char(d as int)],
{
    proof {
        reveal_strlit("0");
        reveal_strlit("1");
        reveal_strlit("2");
        reveal_strlit("3");
        reveal_strlit("4");
        reveal_strlit("5");
        reveal_strlit("6");
        reveal_strlit("7");
        reveal_strlit("8");
        reveal_strlit("9");
    }
    match d {
        0 => "0",
        1 => "1",
        2 => "2",
        3 => "3",
        4 => "4",
        5 => "5",
        6 => "6",
        7 => "7",
        8 => "8",
        _ => "9",
    }
}

/// Writes `n` in decimal.
pub fn to_decimal(n: u32) -> (text: String)
    ensures
        text@ == decimal(n as nat),
    decreases n,
{
    if n < 10 {
        digit_text(n).to_owned()
    } else {
        let mut text = to_decimal(n / 10);
        text.append(digit_text(n % 10));
        text
    }
}

/// The decimal digits of a number are digits, and they write that number.
pub proof fn lemma_decimal_is_digits(n: nat)
    ensures
        decimal(n).len() >= 1,
        forall|i: int| 0 <= i < decimal(n).len() ==> digit_of(#[trigger] decimal(n)[i], 10) is Some,
        digits_value(decimal(n), 10) == n,
    decreases n,
{
    if n < 10 {
        assert(digits_value(seq![digit_char(n as int)].drop_last(), 10) == 0);
    } else {
        lemma_decimal_is_digits(n / 10);
        assert(decimal(n).drop_last() =~= decimal(n / 10));
    }
}

/// What is written is read back: the decimal digits of a number within the
/// limit are read as that number, and those of a number beyond it are refused
/// as too large.
pub proof fn lemma_decimal_reads_back(n: nat, limit: int)
    ensures
        n <= limit ==> number_of(decimal(n), 10, limit) == Ok::<int, ParseError>(n as int),
        n > limit ==> number_of(decimal(n), 10, limit) == Err::<int, ParseError>(
            ParseError::Overflow,
        ),
{
    let text = decimal(n);
    lemma_decimal_is_digits(n);
    lemma_digit_run_ends(text, 10, text.len() as int);
    assert(text.take(text.len() as int) =~= text);
}

} // verus!
